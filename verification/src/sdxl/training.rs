//! The SDXL adapter trainer: request validation, target selection, and the run that caches a
//! dataset, steps the adapter, checkpoints it and saves it.
use super::conditioning::{clip_g_config, clip_l_config};
use super::unet::attention::projection;
use crate::error::Error;
use crate::float::Real32;
use crate::request::{LoadSpec, Modality, WeightsSource};
use crate::rng::{draw_below, first_draw};
use crate::sdxl::MODEL_ID;
use crate::text::{
    contains, decimal, decimal_of, ends, has_part, has_suffix, join, same, same_but_case,
    is_white, same_ignoring_case, trim, trimmed_end, trimmed_start, views,
};
use crate::tokenizer::{
    in_quotes, is_padded, pad_id, quote, tokenize_padded, vocabulary, TextTokenizer, TokenError,
};
use vstd::prelude::*;
use vstd::string::*;

verus! {

/// The length of the training noise schedule.
pub const NUM_TRAIN_TIMESTEPS: usize = 1000;

/// The kind of adapter network to train.
#[derive(Clone, Copy, Debug, PartialEq, Eq, Structural)]
pub enum NetworkType {
    Lora,
    Lokr,
}

/// The knobs of a training run.
#[derive(Clone, Debug)]
pub struct TrainingConfig {
    pub rank: u32,
    pub alpha: Real32,
    pub learning_rate: Real32,
    pub weight_decay: Real32,
    pub steps: u32,
    pub gradient_accumulation: u32,
    pub lr_warmup_steps: u32,
    pub resolution: u32,
    pub save_every: u32,
    pub seed: u64,
    pub network_type: NetworkType,
    pub decompose_factor: i32,
    pub gradient_checkpointing: bool,
    pub train_dtype: String,
    pub loss_type: String,
    pub optimizer: String,
    pub lora_target_modules: Vec<String>,
}

/// One captioned image.
#[derive(Clone, Debug)]
pub struct TrainingItem {
    pub image_path: String,
    pub caption: String,
}

/// A training request.
#[derive(Clone, Debug)]
pub struct TrainingRequest {
    pub items: Vec<TrainingItem>,
    pub config: TrainingConfig,
    pub output_dir: String,
    pub file_name: String,
}

/// The number format of a training forward pass.
#[derive(Clone, Copy, Debug, PartialEq, Eq, Structural)]
pub enum ComputeDtype {
    Bf16,
    F32,
}

/// `s`, trimmed, names bfloat16, in any case.
pub open spec fn names_bf16(s: Seq<char>) -> bool {
    let t = trimmed_end(trimmed_start(s));
    same_but_case(t, "bf16"@) || same_but_case(t, "bfloat16"@)
}

/// The compute format that `s` names: bfloat16 by either name, and single precision otherwise.
pub fn parse_compute_dtype(s: &str) -> (r: ComputeDtype)
    ensures
        r == if names_bf16(s@) {
            ComputeDtype::Bf16
        } else {
            ComputeDtype::F32
        },
{
    let t = trim(s);
    if same_ignoring_case(t, "bf16") || same_ignoring_case(t, "bfloat16") {
        ComputeDtype::Bf16
    } else {
        ComputeDtype::F32
    }
}

/// Whether a loss name selects the mean absolute error over the mean squared error.
pub fn is_mae(loss_type: &str) -> (r: bool)
    ensures
        r == (same_but_case(loss_type@, "mae"@) || same_but_case(loss_type@, "l1"@)),
        same_but_case(loss_type@, "mae"@) ==> r,
        same_but_case(loss_type@, "l1"@) ==> r,
{
    same_ignoring_case(loss_type, "mae") || same_ignoring_case(loss_type, "l1")
}

/// The weight decay of a run: plain Adam has none.
pub fn effective_weight_decay(cfg: &TrainingConfig) -> (r: Real32)
    ensures
        r == if same_but_case(cfg.optimizer@, "adam"@) {
            Real32 { bits: 0 }
        } else {
            cfg.weight_decay
        },
        !same_but_case(cfg.optimizer@, "adam"@) ==> r == cfg.weight_decay,
        same_but_case(cfg.optimizer@, "adam"@) ==> r.bits == 0,
{
    if same_ignoring_case(cfg.optimizer.as_str(), "adam") {
        Real32 { bits: 0 }
    } else {
        cfg.weight_decay
    }
}

/// A uniform timestep of the noise schedule, determined by `seed`.
pub fn sample_timestep(seed: u64) -> (r: usize)
    ensures
        r < NUM_TRAIN_TIMESTEPS,
        r == first_draw(seed, NUM_TRAIN_TIMESTEPS),
{
    draw_below(seed, NUM_TRAIN_TIMESTEPS)
}

/// The optimizers that the trainer has.
pub open spec fn supported_optimizer(name: Seq<char>) -> bool {
    ||| same_but_case(name, "adamw"@)
    ||| same_but_case(name, "adam"@)
    ||| same_but_case(name, "rose"@)
    ||| same_but_case(name, "prodigy"@)
}

fn is_supported(name: &str) -> (r: bool)
    ensures
        r == supported_optimizer(name@),
{
    same_ignoring_case(name, "adamw") || same_ignoring_case(name, "adam") || same_ignoring_case(
        name,
        "rose",
    ) || same_ignoring_case(name, "prodigy")
}

/// The module suffixes that a run targets: those of its configuration, or the four attention
/// projections.
pub open spec fn target_suffixes(configured: Seq<Seq<char>>) -> Seq<Seq<char>> {
    if configured.len() == 0 {
        seq!["to_q"@, "to_k"@, "to_v"@, "to_out.0"@]
    } else {
        configured
    }
}

/// `path` is `suffix`, or ends in it after a dot.
pub open spec fn matches_suffix(path: Seq<char>, suffix: Seq<char>) -> bool {
    path == suffix || ends(path, "."@ + suffix)
}

/// A run of `network` with these suffixes adapts `path`. A LoKr run leaves the mid block alone,
/// which its loader would skip.
pub open spec fn is_target(path: Seq<char>, suffixes: Seq<Seq<char>>, network: NetworkType) -> bool {
    &&& exists|i: int| 0 <= i < suffixes.len() && matches_suffix(path, #[trigger] suffixes[i])
    &&& network == NetworkType::Lokr ==> !has_part(path, "mid_block"@)
}

/// The paths among the first `k` that a run adapts, in order.
pub open spec fn targets_among(
    paths: Seq<Seq<char>>,
    suffixes: Seq<Seq<char>>,
    network: NetworkType,
    k: int,
) -> Seq<Seq<char>>
    decreases k,
{
    if k <= 0 {
        Seq::empty()
    } else {
        let before = targets_among(paths, suffixes, network, k - 1);
        if is_target(paths[k - 1], suffixes, network) {
            before.push(paths[k - 1])
        } else {
            before
        }
    }
}

/// The first `k` strings in quotes, with commas between them.
pub open spec fn quoted_items(v: Seq<Seq<char>>, k: int) -> Seq<char>
    decreases k,
{
    if k <= 0 {
        Seq::empty()
    } else if k == 1 {
        in_quotes(v[0])
    } else {
        quoted_items(v, k - 1) + ", "@ + in_quotes(v[k - 1])
    }
}

/// A list of strings in brackets, each in quotes.
pub open spec fn list_text(v: Seq<Seq<char>>) -> Seq<char> {
    "["@ + quoted_items(v, v.len() as int) + "]"@
}

fn quote_all(v: &Vec<String>) -> (r: String)
    ensures
        r@ == list_text(views(v@)),
{
    let ghost all = views(v@);
    let mut s = String::from_str("[");
    let mut i: usize = 0;
    proof {
        assert("["@ + quoted_items(all, 0) =~= "["@);
    }
    while i < v.len()
        invariant
            i <= v.len(),
            all == views(v@),
            s@ == "["@ + quoted_items(all, i as int),
        decreases v.len() - i,
    {
        if i > 0 {
            s.append(", ");
        }
        s.append(quote(v[i].as_str()).as_str());
        proof {
            assert(all[i as int] == v[i as int]@);
            assert(s@ =~= "["@ + quoted_items(all, i + 1));
        }
        i += 1;
    }
    proof {
        assert(all.len() == v.len());
    }
    s.append("]");
    s
}

fn hits(path: &str, suffixes: &Vec<String>) -> (r: bool)
    ensures
        r == exists|i: int|
            0 <= i < suffixes.len() && matches_suffix(path@, #[trigger] views(suffixes@)[i]),
{
    let mut i: usize = 0;
    while i < suffixes.len()
        invariant
            i <= suffixes.len(),
            forall|k: int| 0 <= k < i ==> !matches_suffix(path@, #[trigger] views(suffixes@)[k]),
        decreases suffixes.len() - i,
    {
        let s = suffixes[i].as_str();
        proof {
            assert(views(suffixes@)[i as int] == s@);
        }
        if same(path, s) || has_suffix(path, join(".", s).as_str()) {
            return true;
        }
        i += 1;
    }
    false
}

/// The adapter targets of a run, out of the UNet's adaptable paths; at least one has to match.
pub fn resolve_target_paths(paths: &Vec<String>, cfg: &TrainingConfig) -> (r: Result<
    Vec<String>,
    Error,
>)
    ensures
        ({
            let wanted = targets_among(
                views(paths@),
                target_suffixes(views(cfg.lora_target_modules@)),
                cfg.network_type,
                paths.len() as int,
            );
            match r {
                Ok(v) => views(v@) == wanted && wanted.len() > 0,
                Err(e) => wanted.len() == 0 && e.says(
                    "sdxl trainer: no adapter targets matched "@ + list_text(
                        target_suffixes(views(cfg.lora_target_modules@)),
                    ),
                ),
            }
        }),
{
    let mut suffixes: Vec<String> = Vec::new();
    if cfg.lora_target_modules.len() == 0 {
        suffixes.push(String::from_str("to_q"));
        suffixes.push(String::from_str("to_k"));
        suffixes.push(String::from_str("to_v"));
        suffixes.push(String::from_str("to_out.0"));
    } else {
        let mut i: usize = 0;
        while i < cfg.lora_target_modules.len()
            invariant
                i <= cfg.lora_target_modules.len(),
                suffixes.len() == i,
                forall|k: int|
                    0 <= k < i ==> (#[trigger] suffixes[k])@ == cfg.lora_target_modules[k]@,
            decreases cfg.lora_target_modules.len() - i,
        {
            suffixes.push(cfg.lora_target_modules[i].clone());
            i += 1;
        }
    }
    let ghost want = target_suffixes(views(cfg.lora_target_modules@));
    proof {
        assert(views(suffixes@) =~= want);
    }
    let mut out: Vec<String> = Vec::new();
    let mut j: usize = 0;
    proof {
        assert(views(out@) =~= Seq::<Seq<char>>::empty());
    }
    while j < paths.len()
        invariant
            j <= paths.len(),
            views(suffixes@) == want,
            views(out@) == targets_among(views(paths@), want, cfg.network_type, j as int),
        decreases paths.len() - j,
    {
        let p = &paths[j];
        let mut keep = hits(p.as_str(), &suffixes);
        if keep {
            match cfg.network_type {
                NetworkType::Lokr => {
                    keep = !contains(p.as_str(), "mid_block");
                },
                NetworkType::Lora => {},
            }
        }
        proof {
            assert(views(paths@)[j as int] == p@);
            assert(suffixes.len() == views(suffixes@).len());
            assert(keep == is_target(p@, want, cfg.network_type));
        }
        if keep {
            let ghost before = views(out@);
            out.push(p.clone());
            proof {
                assert(views(out@) =~= before.push(p@));
            }
        }
        j += 1;
    }
    if out.len() == 0 {
        proof {
            assert(views(out@).len() == 0);
        }
        return Err(
            Error::Msg(
                join("sdxl trainer: no adapter targets matched ", quote_all(&suffixes).as_str()),
            ),
        );
    }
    proof {
        assert(views(out@).len() > 0);
    }
    Ok(out)
}

/// Why a caption is not encoded, in words.
pub open spec fn caption_error_text(e: TokenError) -> Seq<char> {
    match e {
        TokenError::NoPadToken { token } => "pad token "@ + in_quotes(token@) + " not in CLIP vocab"@,
        TokenError::TooLong { tokens, limit } => "caption too long: "@ + decimal(tokens as nat)
            + " tokens > "@ + decimal(limit as nat),
        TokenError::Tokenize { .. } => e.text(),
    }
}

/// Why a caption is not encoded, in words.
pub fn caption_error(e: &TokenError) -> (r: String)
    ensures
        r@ == caption_error_text(*e),
{
    match e {
        TokenError::NoPadToken { token } => {
            let mut s = join("pad token ", quote(token.as_str()).as_str());
            s.append(" not in CLIP vocab");
            s
        },
        TokenError::TooLong { tokens, limit } => {
            let mut s = join("caption too long: ", decimal_of(*tokens).as_str());
            s.append(" tokens > ");
            s.append(decimal_of(*limit).as_str());
            s
        },
        TokenError::Tokenize { .. } => e.message(),
    }
}

/// The pad token's id of a tokenizer.
pub open spec fn has_pad(t: TextTokenizer, id: u32) -> bool {
    vocabulary(t@).contains_pair("!"@, id)
}

/// The tokenizer has no pad token, and the error names it.
pub open spec fn lacks_pad(t: TextTokenizer, e: TokenError) -> bool {
    !vocabulary(t@).contains_key("!"@) && (e matches TokenError::NoPadToken { token }
        && token@ == "!"@)
}

/// The pad ids of both encoders, looked up once before any caption is encoded.
pub fn caption_pads(tok_l: &TextTokenizer, tok_g: &TextTokenizer) -> (r: Result<(u32, u32), TokenError>)
    ensures
        match r {
            Ok(pads) => has_pad(*tok_l, pads.0) && has_pad(*tok_g, pads.1),
            Err(e) => lacks_pad(*tok_l, e) || (lacks_pad(*tok_g, e) && vocabulary(
                tok_l@,
            ).contains_key("!"@)),
        },
{
    let cfg_l = clip_l_config();
    let cfg_g = clip_g_config();
    let l: u32 = match pad_id(tok_l, &cfg_l.pad_with) {
        Ok(id) => id,
        Err(e) => {
            return Err(e);
        },
    };
    match pad_id(tok_g, &cfg_g.pad_with) {
        Ok(g) => Ok((l, g)),
        Err(e) => Err(e),
    }
}

/// The token rows of a caption for both encoders, CLIP-L's first. There is no negative prompt in
/// training.
pub fn encode_caption(tok_l: &TextTokenizer, tok_g: &TextTokenizer, pads: (u32, u32), caption: &str) -> (r:
    Result<(Vec<u32>, Vec<u32>), TokenError>)
    ensures
        match r {
            Ok(rows) => is_padded(Ok(rows.0), tok_l@, pads.0, 77, caption@) && is_padded(
                Ok(rows.1),
                tok_g@,
                pads.1,
                77,
                caption@,
            ),
            Err(e) => is_padded(Err(e), tok_l@, pads.0, 77, caption@) || (is_padded(
                Err(e),
                tok_g@,
                pads.1,
                77,
                caption@,
            ) && exists|row: Vec<u32>| #[trigger]
                is_padded(Ok(row), tok_l@, pads.0, 77, caption@)),
        },
{
    let cfg_l = clip_l_config();
    let cfg_g = clip_g_config();
    let l = match tokenize_padded(tok_l, cfg_l.max_position_embeddings, pads.0, caption) {
        Ok(row) => row,
        Err(e) => {
            return Err(e);
        },
    };
    proof {
        assert(is_padded(Ok(l), tok_l@, pads.0, 77, caption@));
    }
    match tokenize_padded(tok_g, cfg_g.max_position_embeddings, pads.1, caption) {
        Ok(g) => Ok((l, g)),
        Err(e) => Err(e),
    }
}

/// Where a file is saved: its name is joined to the directory by the host's own rules for paths.
#[derive(Clone, Debug)]
pub struct SavePath {
    pub dir: String,
    pub file: String,
}

/// Where the trained adapter is saved: under the request's file name in its output directory.
pub fn adapter_path(req: &TrainingRequest) -> (r: SavePath)
    ensures
        r.dir@ == req.output_dir@ && r.file@ == req.file_name@,
{
    SavePath {
        dir: String::from_str(req.output_dir.as_str()),
        file: String::from_str(req.file_name.as_str()),
    }
}

/// Where an intermediate adapter is saved: in the same directory, under the name of its checkpoint.
pub fn checkpoint_path(req: &TrainingRequest, checkpoint: &str) -> (r: SavePath)
    ensures
        r.dir@ == req.output_dir@ && r.file@ == checkpoint@,
{
    SavePath { dir: String::from_str(req.output_dir.as_str()), file: String::from_str(checkpoint) }
}

/// The identity of a trainer.
#[derive(Clone, Copy, Debug)]
pub struct TrainerDescriptor {
    pub id: &'static str,
    pub family: &'static str,
    pub backend: &'static str,
    pub modality: Modality,
    pub supports_lora: bool,
    pub supports_lokr: bool,
}

/// The identity of the SDXL trainer, which trains both adapter kinds.
pub open spec fn is_sdxl_trainer(d: TrainerDescriptor) -> bool {
    &&& d.id@ == "sdxl"@ && d.family@ == "sdxl"@ && d.backend@ == "candle"@
    &&& d.modality == Modality::Image && d.supports_lora && d.supports_lokr
}

/// The SDXL trainer trains both adapter kinds.
pub fn trainer_descriptor() -> (r: TrainerDescriptor)
    ensures
        is_sdxl_trainer(r),
{
    TrainerDescriptor {
        id: MODEL_ID,
        family: "sdxl",
        backend: "candle",
        modality: Modality::Image,
        supports_lora: true,
        supports_lokr: true,
    }
}

/// A trainer for the snapshot at `root`. Nothing is read until a run starts.
#[derive(Clone, Debug)]
pub struct SdxlTrainer {
    pub descriptor: TrainerDescriptor,
    pub root: String,
}

/// The trainer of a snapshot directory; a single file is refused.
pub fn load_trainer(spec: &LoadSpec) -> (r: Result<SdxlTrainer, Error>)
    ensures
        match r {
            Ok(t) => spec.weights matches WeightsSource::Dir(p) && t.root@ == p@ && is_sdxl_trainer(
                t.descriptor,
            ),
            Err(e) => spec.weights is File && e.says(
                "sdxl trainer expects a snapshot directory (text_encoder/ text_encoder_2/ unet/ …), not a single .safetensors file"@,
            ),
        },
{
    match &spec.weights {
        WeightsSource::Dir(p) => Ok(
            SdxlTrainer { descriptor: trainer_descriptor(), root: p.clone() },
        ),
        WeightsSource::File(_) => Err(
            Error::Msg(
                String::from_str(
                    "sdxl trainer expects a snapshot directory (text_encoder/ text_encoder_2/ unet/ …), not a single .safetensors file",
                ),
            ),
        ),
    }
}

/// Why a training request is refused before anything is loaded.
pub open spec fn refusal(req: &TrainingRequest) -> Option<Seq<char>> {
    if req.items@.len() == 0 {
        Some("sdxl trainer: dataset is empty"@)
    } else if req.config.rank == 0 {
        Some("sdxl trainer: rank must be > 0"@)
    } else if !supported_optimizer(req.config.optimizer@) {
        Some(
            "sdxl trainer: optimizer '"@ + req.config.optimizer@
                + "' is not available (supported: adamw, adam, rose, prodigy)"@,
        )
    } else {
        None
    }
}

impl SdxlTrainer {
    /// Refuses an empty dataset, a zero rank and an unknown optimizer.
    pub fn validate(&self, req: &TrainingRequest) -> (r: Result<(), Error>)
        ensures
            match r {
                Ok(_) => refusal(req) is None,
                Err(e) => refusal(req) is Some && e.says(refusal(req)->0),
            },
    {
        if req.items.len() == 0 {
            return Err(Error::Msg(String::from_str("sdxl trainer: dataset is empty")));
        }
        if req.config.rank == 0 {
            return Err(Error::Msg(String::from_str("sdxl trainer: rank must be > 0")));
        }
        if !is_supported(req.config.optimizer.as_str()) {
            let mut m = String::from_str("sdxl trainer: optimizer '");
            m.append(req.config.optimizer.as_str());
            m.append("' is not available (supported: adamw, adam, rose, prodigy)");
            return Err(Error::Msg(m));
        }
        Ok(())
    }
}

/// A run adapts exactly those of the UNet's paths that it targets, in the UNet's order.
pub proof fn law_targets_are_the_matching_paths(
    paths: Seq<Seq<char>>,
    suffixes: Seq<Seq<char>>,
    network: NetworkType,
    k: int,
)
    requires
        0 <= k <= paths.len(),
    ensures
        targets_among(paths, suffixes, network, k) == paths.take(k).filter(
            |p: Seq<char>| is_target(p, suffixes, network),
        ),
    decreases k,
{
    let keep = |p: Seq<char>| is_target(p, suffixes, network);
    reveal(Seq::filter);
    if k > 0 {
        law_targets_are_the_matching_paths(paths, suffixes, network, k - 1);
        assert(paths.take(k).drop_last() =~= paths.take(k - 1));
        assert(paths.take(k).last() == paths[k - 1]);
    } else {
        assert(paths.take(0) =~= Seq::empty());
    }
}

/// A suffix names whole segments of a path: the path itself or its end behind a dot, but no end of a
/// longer segment.
pub proof fn law_suffixes_name_whole_segments(head: Seq<char>, suffix: Seq<char>)
    ensures
        matches_suffix(suffix, suffix),
        matches_suffix(head + "."@ + suffix, suffix),
        head.len() > 0 && head.last() != '.' ==> !matches_suffix(head + suffix, suffix),
{
    reveal_strlit(".");
    let p = "."@ + suffix;
    let dotted = head + "."@ + suffix;
    assert(dotted.skip(dotted.len() - p.len()) =~= p);
    if head.len() > 0 && head.last() != '.' {
        let path = head + suffix;
        assert(path.len() != suffix.len());
        assert(path.skip(path.len() - p.len())[0] == head.last());
        assert(p[0] == '.');
    }
}

/// A LoKr run adapts what a LoRA run of the same suffixes adapts, but for the mid block; and with more
/// suffixes a run adapts no less.
pub proof fn law_lokr_leaves_the_mid_block(
    path: Seq<char>,
    suffixes: Seq<Seq<char>>,
    more: Seq<char>,
    network: NetworkType,
)
    ensures
        is_target(path, suffixes, NetworkType::Lokr) <==> is_target(
            path,
            suffixes,
            NetworkType::Lora,
        ) && !has_part(path, "mid_block"@),
        is_target(path, suffixes, network) ==> is_target(path, suffixes.push(more), network),
        is_target(path, seq![more], NetworkType::Lora) <==> matches_suffix(path, more),
        !is_target(path, Seq::empty(), network),
{
    if is_target(path, suffixes, network) {
        let i = choose|i: int|
            0 <= i < suffixes.len() && matches_suffix(path, #[trigger] suffixes[i]);
        assert(suffixes.push(more)[i] == suffixes[i]);
    }
    assert(seq![more][0] == more);
}

/// A run that names no modules adapts all the projections of every transformer layer; one that names
/// some adapts those.
pub proof fn law_every_projection_is_a_target_by_default(
    stem: Seq<char>,
    leaf: int,
    configured: Seq<Seq<char>>,
)
    requires
        0 <= leaf < 8,
    ensures
        is_target(stem + projection(leaf), target_suffixes(Seq::empty()), NetworkType::Lora),
        configured.len() > 0 ==> target_suffixes(configured) == configured,
{
    reveal_strlit(".attn1.to_q");
    reveal_strlit(".attn1.to_k");
    reveal_strlit(".attn1.to_v");
    reveal_strlit(".attn1.to_out.0");
    reveal_strlit(".attn2.to_q");
    reveal_strlit(".attn2.to_k");
    reveal_strlit(".attn2.to_v");
    reveal_strlit(".attn2.to_out.0");
    reveal_strlit("to_q");
    reveal_strlit("to_k");
    reveal_strlit("to_v");
    reveal_strlit("to_out.0");
    reveal_strlit(".");
    let all = target_suffixes(Seq::empty());
    let path = stem + projection(leaf);
    let i = leaf % 4;
    let p = "."@ + all[i];
    assert(path.skip(path.len() - p.len()) =~= p);
    assert(matches_suffix(path, all[i]));
}

/// What is refused before anything is loaded: a run without images, one of rank 0 and one of an unknown
/// optimizer, and no other.
pub proof fn law_runs_that_can_be_trained_are_taken(req: &TrainingRequest)
    ensures
        refusal(req) is None <==> req.items@.len() > 0 && req.config.rank > 0 && supported_optimizer(
            req.config.optimizer@,
        ),
        req.items@.len() == 0 ==> refusal(req) == Some("sdxl trainer: dataset is empty"@),
        req.items@.len() > 0 && req.config.rank == 0 ==> refusal(req) == Some(
            "sdxl trainer: rank must be > 0"@,
        ),
{
}

/// An optimizer is known by its name, in whatever case: by one of four.
pub proof fn law_optimizers_are_known_by_name(a: Seq<char>, b: Seq<char>)
    requires
        same_but_case(a, b),
    ensures
        supported_optimizer(a) == supported_optimizer(b),
        supported_optimizer("adamw"@) && supported_optimizer("adam"@) && supported_optimizer("rose"@)
            && supported_optimizer("prodigy"@),
        supported_optimizer(a) ==> same_but_case(a, "adamw"@) || same_but_case(a, "adam"@)
            || same_but_case(a, "rose"@) || same_but_case(a, "prodigy"@),
{
}

proof fn lemma_trimmed_push(s: Seq<char>, c: char)
    requires
        is_white(c),
    ensures
        trimmed_end(trimmed_start(s.push(c))) == trimmed_end(trimmed_start(s)),
    decreases s.len(),
{
    if s.len() > 0 && is_white(s[0]) {
        assert(s.push(c).skip(1) =~= s.skip(1).push(c));
        lemma_trimmed_push(s.skip(1), c);
    } else if s.len() == 0 {
        assert(s.push(c).skip(1) =~= Seq::<char>::empty());
        assert(s =~= Seq::<char>::empty());
    } else {
        assert(trimmed_start(s.push(c)) == s.push(c));
        assert(s.push(c).drop_last() =~= s);
    }
}

/// White space around the name of a compute format does not count, nor does its case; a name that is
/// neither of bfloat16's is single precision's.
pub proof fn law_formats_are_known_by_name(s: Seq<char>, c: char)
    ensures
        is_white(c) ==> names_bf16(seq![c] + s) == names_bf16(s) && names_bf16(s.push(c)) == names_bf16(
            s,
        ),
        s.len() > 0 && !is_white(s[0]) && !is_white(s.last()) ==> (names_bf16(s) <==> same_but_case(
            s,
            "bf16"@,
        ) || same_but_case(s, "bfloat16"@)),
        names_bf16(s) ==> s.len() > 0,
{
    if is_white(c) {
        assert((seq![c] + s).skip(1) =~= s);
        lemma_trimmed_push(s, c);
    }
    if names_bf16(s) {
        reveal_strlit("bf16");
        reveal_strlit("bfloat16");
        let t = trimmed_end(trimmed_start(s));
        if s.len() == 0 {
            assert(t.len() == 0);
            assert(t.map_values(|c: char| crate::text::lowered(c)).len() == 0);
            assert("bf16"@.map_values(|c: char| crate::text::lowered(c)).len() == 4);
            assert("bfloat16"@.map_values(|c: char| crate::text::lowered(c)).len() == 8);
        }
    }
}

} // verus!

//! The text-to-image pipeline of SDXL: where its parts come from, the token rows it encodes, and the
//! run that a request asks for.
use super::conditioning::{clip_g_config, clip_l_config, has_no_row, is_row};
use super::render::{
    driven, law_image_is_prepared, law_run_finishes_with_every_image, RenderAction, RenderPlan,
};
use crate::error::Error;
use crate::float::Real32;
use crate::request::GenerationRequest;
use crate::text::{decimal, decimal_of, join};
use crate::tokenizer::{tokenize, TextTokenizer, TokenError};
use vstd::prelude::*;
use vstd::string::*;

verus! {

/// The steps of a request that does not say.
pub const DEFAULT_STEPS: u32 = 30;

/// The bits of the single `7.0`, the guidance of a request that does not say.
pub const DEFAULT_GUIDANCE: u32 = 0x40e0_0000;

/// The bits of the double `0.13025`, by which a latent is scaled.
pub const VAE_SCALE: u64 = 0x3fc0_ac08_3126_e979;

/// The repository of the half-precision autoencoder.
pub const VAE_FIX_REPO: &'static str = "madebyollin/sdxl-vae-fp16-fix";

pub const VAE_FIX_FILE: &'static str = "diffusion_pytorch_model.safetensors";

/// The UNet's weights in a snapshot.
pub const UNET_FILE: &'static str = "unet/diffusion_pytorch_model.fp16.safetensors";

/// The image pixels of a latent cell, on each side.
pub const SPATIAL_SCALE: u32 = 8;

/// The latent channels.
pub const LATENT_CHANNELS: usize = 4;

/// One of the two text encoders.
#[derive(Clone, Copy, Debug, PartialEq, Eq, Structural)]
pub enum Clip {
    L,
    BigG,
}

impl Clip {
    /// The repository of the encoder's tokenizer, and its weights in a snapshot.
    pub fn sources(&self) -> (r: (&'static str, &'static str))
        ensures
            r == match *self {
                Clip::L => (
                    "openai/clip-vit-large-patch14",
                    "text_encoder/model.fp16.safetensors",
                ),
                Clip::BigG => (
                    "laion/CLIP-ViT-bigG-14-laion2B-39B-b160k",
                    "text_encoder_2/model.fp16.safetensors",
                ),
            },
    {
        match *self {
            Clip::L => ("openai/clip-vit-large-patch14", "text_encoder/model.fp16.safetensors"),
            Clip::BigG => (
                "laion/CLIP-ViT-bigG-14-laion2B-39B-b160k",
                "text_encoder_2/model.fp16.safetensors",
            ),
        }
    }
}

/// Refuses a snapshot that lacks one of its files.
pub fn snapshot_file(root: &str, sub: &str, is_file: bool) -> (r: Result<(), Error>)
    ensures
        if is_file {
            r is Ok
        } else {
            r matches Err(e) && e.says(
                "sdxl snapshot is missing "@ + sub@
                    + " (expected a diffusers multi-component snapshot at "@ + root@ + ")"@,
            )
        },
{
    if is_file {
        return Ok(());
    }
    let mut s = join("sdxl snapshot is missing ", sub);
    s.append(" (expected a diffusers multi-component snapshot at ");
    s.append(root);
    s.append(")");
    Err(Error::Msg(s))
}

/// Why a text is not encoded, in words.
pub open spec fn token_error_text(e: TokenError) -> Seq<char> {
    match e {
        TokenError::TooLong { tokens, limit } => "prompt too long: "@ + decimal(tokens as nat)
            + " tokens > "@ + decimal(limit as nat),
        _ => e.text(),
    }
}

/// Why a text is not encoded, in words.
pub fn token_error(e: &TokenError) -> (r: String)
    ensures
        r@ == token_error_text(*e),
{
    match e {
        TokenError::TooLong { tokens, limit } => {
            let mut s = join("prompt too long: ", decimal_of(*tokens).as_str());
            s.append(" tokens > ");
            s.append(decimal_of(*limit).as_str());
            s
        },
        _ => e.message(),
    }
}

/// What tokenizing a request for one encoder gives: the unconditioned row and then the conditioned
/// one, or the prompt's failure before the other's.
pub open spec fn are_rows(
    r: Result<(Vec<u32>, Vec<u32>), TokenError>,
    t: TextTokenizer,
    prompt: Seq<char>,
    uncond: Seq<char>,
) -> bool {
    match r {
        Ok(rows) => is_row(rows.0, t, uncond) && is_row(rows.1, t, prompt),
        Err(e) => has_no_row(e, t, prompt) || (has_no_row(e, t, uncond) && exists|row: Vec<u32>| #[trigger]
            is_row(row, t, prompt)),
    }
}

/// The token rows of one encoder, the unconditioned text's first. The prompt is tokenized first, so
/// that it is the one reported where neither can be.
pub fn encode_one(which: Clip, t: &TextTokenizer, prompt: &str, uncond: &str) -> (r: Result<
    (Vec<u32>, Vec<u32>),
    TokenError,
>)
    ensures
        are_rows(r, *t, prompt@, uncond@),
{
    let cfg = match which {
        Clip::L => clip_l_config(),
        Clip::BigG => clip_g_config(),
    };
    let cond = match tokenize(t, &cfg.pad_with, cfg.max_position_embeddings, prompt) {
        Ok(row) => row,
        Err(e) => {
            return Err(e);
        },
    };
    match tokenize(t, &cfg.pad_with, cfg.max_position_embeddings, uncond) {
        Ok(row) => Ok((row, cond)),
        Err(e) => {
            proof {
                assert(is_row(cond, *t, prompt@));
            }
            Err(e)
        },
    }
}

/// The token rows of both encoders, CLIP-L's first.
pub fn text_embeddings(tok_l: &TextTokenizer, tok_g: &TextTokenizer, prompt: &str, uncond: &str) -> (r:
    Result<((Vec<u32>, Vec<u32>), (Vec<u32>, Vec<u32>)), TokenError>)
    ensures
        match r {
            Ok(rows) => are_rows(Ok(rows.0), *tok_l, prompt@, uncond@) && are_rows(
                Ok(rows.1),
                *tok_g,
                prompt@,
                uncond@,
            ),
            Err(e) => are_rows(Err(e), *tok_l, prompt@, uncond@) || (are_rows(
                Err(e),
                *tok_g,
                prompt@,
                uncond@,
            ) && exists|rows: (Vec<u32>, Vec<u32>)| #[trigger]
                are_rows(Ok(rows), *tok_l, prompt@, uncond@)),
        },
{
    let l = match encode_one(Clip::L, tok_l, prompt, uncond) {
        Ok(rows) => rows,
        Err(e) => {
            return Err(e);
        },
    };
    match encode_one(Clip::BigG, tok_g, prompt, uncond) {
        Ok(g) => Ok((l, g)),
        Err(e) => {
            proof {
                assert(are_rows(Ok(l), *tok_l, prompt@, uncond@));
            }
            Err(e)
        },
    }
}

/// The negative prompt of a request, empty where it has none.
pub open spec fn negative_of(req: &GenerationRequest) -> Seq<char> {
    match req.negative_prompt {
        Some(s) => s@,
        None => ""@,
    }
}

/// The guidance of a request.
pub open spec fn guidance_of(req: &GenerationRequest) -> Real32 {
    match req.guidance {
        Some(g) => g,
        None => Real32 { bits: DEFAULT_GUIDANCE },
    }
}

/// The run that a request asks for; `default_seed` is the seed of one that does not say.
pub open spec fn plan_of(req: &GenerationRequest, default_seed: u64) -> RenderPlan {
    RenderPlan {
        count: req.count,
        steps: match req.steps {
            Some(s) => s,
            None => DEFAULT_STEPS,
        },
        base_seed: match req.seed {
            Some(s) => s,
            None => default_seed,
        },
        guided: guidance_of(req).above_one(),
        masked: false,
    }
}

/// What a render of a request needs beside its run.
#[derive(Clone, Debug)]
pub struct TextToImage {
    pub plan: RenderPlan,
    pub guidance: Real32,
    pub negative: String,
    pub latent_height: u32,
    pub latent_width: u32,
}

/// Resolves a request: the steps, guidance and seed that it does not give are the defaults.
pub fn resolve(req: &GenerationRequest, default_seed: u64) -> (r: TextToImage)
    ensures
        r.plan == plan_of(req, default_seed),
        r.plan.count == req.count,
        r.guidance == guidance_of(req),
        r.negative@ == negative_of(req),
        r.latent_height == req.height as int / SPATIAL_SCALE as int,
        r.latent_width == req.width as int / SPATIAL_SCALE as int,
        8 * r.latent_height <= req.height < 8 * (r.latent_height + 1),
        8 * r.latent_width <= req.width < 8 * (r.latent_width + 1),
        r.plan.guided <==> r.guidance.above_one(),
{
    let guidance = match req.guidance {
        Some(g) => g,
        None => Real32 { bits: DEFAULT_GUIDANCE },
    };
    let steps: u32 = match req.steps {
        Some(s) => s,
        None => DEFAULT_STEPS,
    };
    let base_seed: u64 = match req.seed {
        Some(s) => s,
        None => default_seed,
    };
    let negative = match &req.negative_prompt {
        Some(s) => s.clone(),
        None => String::from_str(""),
    };
    TextToImage {
        plan: RenderPlan {
            count: req.count,
            steps,
            base_seed,
            guided: guidance.exceeds_one(),
            masked: false,
        },
        guidance,
        negative,
        latent_height: req.height / SPATIAL_SCALE,
        latent_width: req.width / SPATIAL_SCALE,
    }
}

/// A part of the pipeline, in the order they are loaded.
#[derive(Clone, Copy, Debug, PartialEq, Eq, Structural)]
pub enum Component {
    Tokenizer(Clip),
    TextEncoder(Clip),
    Vae,
    Unet,
}

impl Component {
    /// The repository or the snapshot path, and the file, that a part is loaded from: tokenizers and
    /// the autoencoder come from repositories, the rest from the snapshot.
    pub fn source(&self) -> (r: (Option<&'static str>, &'static str))
        ensures
            r == match *self {
                Component::Tokenizer(Clip::L) => (
                    Some("openai/clip-vit-large-patch14"),
                    "tokenizer.json",
                ),
                Component::Tokenizer(Clip::BigG) => (
                    Some("laion/CLIP-ViT-bigG-14-laion2B-39B-b160k"),
                    "tokenizer.json",
                ),
                Component::TextEncoder(Clip::L) => (None, "text_encoder/model.fp16.safetensors"),
                Component::TextEncoder(Clip::BigG) => (
                    None,
                    "text_encoder_2/model.fp16.safetensors",
                ),
                Component::Vae => (Some(VAE_FIX_REPO), VAE_FIX_FILE),
                Component::Unet => (None, UNET_FILE),
            },
    {
        match *self {
            Component::Tokenizer(c) => (Some(c.sources().0), "tokenizer.json"),
            Component::TextEncoder(c) => (None, c.sources().1),
            Component::Vae => (Some(VAE_FIX_REPO), VAE_FIX_FILE),
            Component::Unet => (None, UNET_FILE),
        }
    }
}

/// The parts of the pipeline: each encoder's tokenizer and weights, the autoencoder, the UNet.
pub fn components() -> (r: Vec<Component>)
    ensures
        r@ == seq![
            Component::Tokenizer(Clip::L),
            Component::TextEncoder(Clip::L),
            Component::Tokenizer(Clip::BigG),
            Component::TextEncoder(Clip::BigG),
            Component::Vae,
            Component::Unet,
        ],
{
    let v = vec![
        Component::Tokenizer(Clip::L),
        Component::TextEncoder(Clip::L),
        Component::Tokenizer(Clip::BigG),
        Component::TextEncoder(Clip::BigG),
        Component::Vae,
        Component::Unet,
    ];
    proof {
        assert(v@ =~= seq![
            Component::Tokenizer(Clip::L),
            Component::TextEncoder(Clip::L),
            Component::Tokenizer(Clip::BigG),
            Component::TextEncoder(Clip::BigG),
            Component::Vae,
            Component::Unet,
        ]);
    }
    v
}

/// A request that names its seed does not depend on the default one.
pub proof fn law_seeded_requests_are_reproducible(req: &GenerationRequest, a: u64, b: u64)
    requires
        req.seed is Some,
    ensures
        plan_of(req, a) == plan_of(req, b),
{
}

/// A request is rendered as it asks: as many images, in as many steps, from the seed that it names.
/// What it leaves out comes from the defaults: thirty steps and the given seed. Guidance is on exactly
/// where its strength is above one, and nothing is kept of another image.
pub proof fn law_requests_are_rendered_as_asked(req: &GenerationRequest, default_seed: u64)
    ensures
        ({
            let plan = plan_of(req, default_seed);
            &&& plan.count == req.count
            &&& req.steps matches Some(s) ==> plan.steps == s
            &&& req.steps is None ==> plan.steps == 30
            &&& req.seed matches Some(s) ==> plan.base_seed == s
            &&& req.seed is None ==> plan.base_seed == default_seed
            &&& req.guidance matches Some(g) ==> (plan.guided <==> g.above_one())
            &&& !plan.masked
        }),
        req.guidance matches Some(g) ==> guidance_of(req) == g,
        req.guidance is None ==> plan_of(req, default_seed).guided,
        req.negative_prompt matches Some(n) ==> negative_of(req) == n@,
        req.negative_prompt is None ==> negative_of(req).len() == 0,
{
    reveal_strlit("");
    (Real32 { bits: DEFAULT_GUIDANCE }).lemma_above_one();
}

/// The run of a request finishes with as many images as were asked for, image `k` of them from the
/// named seed plus `k`.
pub proof fn law_every_image_asked_for_is_rendered(
    req: &GenerationRequest,
    seed: u64,
    default_seed: u64,
    k: u32,
)
    requires
        req.seed == Some(seed),
        k < req.count,
    ensures
        ({
            let plan = plan_of(req, default_seed);
            &&& driven(plan, req.count * (plan.steps + 2)).action(false) == (RenderAction::Finish {
                images: req.count,
            })
            &&& driven(plan, k * (plan.steps + 2)).action(false) matches RenderAction::Prepare {
                image,
                seed: s,
                ..
            }
            &&& image == k && s == seed.wrapping_add(k as u64)
        }),
{
    let plan = plan_of(req, default_seed);
    law_run_finishes_with_every_image(plan, k);
    law_image_is_prepared(plan, k);
}

/// The rows of one encoder are the unconditioned text's first and the prompt's second, all 77 long.
pub proof fn law_unconditioned_row_comes_first(
    rows: (Vec<u32>, Vec<u32>),
    t: TextTokenizer,
    prompt: Seq<char>,
    uncond: Seq<char>,
)
    requires
        are_rows(Ok(rows), t, prompt, uncond),
    ensures
        is_row(rows.0, t, uncond) && rows.0.len() == 77,
        is_row(rows.1, t, prompt) && rows.1.len() == 77,
{
}

} // verus!

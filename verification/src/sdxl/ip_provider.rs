//! Reference-image generation: its request, its image encoder's weights and its run.
use super::conditioning::{encode, is_encoding, texts_of, TokenRows};
use super::ip_adapter::{
    check_reference, image_rows, ip_tokens, is_pairs, is_sorting, keys_of, kv_indices,
    load_ip_kv_pairs, Resampler, ResamplerConfig, TokenRow,
};
use super::loaders::law_sdxl_takes_seventy_pairs;
use super::pipeline::SPATIAL_SCALE;
use super::render::RenderPlan;
use super::unet::attention::{IpAdapterError, TransformerLayer};
use super::unet::controlnet::is_sdxl_unet;
use super::unet::unet_2d::UNet2DConditionModel;
use super::vision_encoder::{
    check_layer_count, last_layer, layer_of, tower_keys, ClipVisionEncoder, VisionConfig,
};
use super::weights::Weights;
use crate::error::Error;
use crate::float::Real32;
use crate::image::{buffer_text, Image};
use crate::text::{decimal, join};
use crate::tokenizer::{TextTokenizer, TokenError};
use vstd::prelude::*;
use vstd::string::*;

verus! {

/// The bits of the single `0.7`, the weight of the image tokens of a request that does not say.
pub const DEFAULT_IP_ADAPTER_SCALE: u32 = 0x3f33_3333;

/// The bits of the single `5.0`, the guidance of a request that does not say.
pub const DEFAULT_GUIDANCE: u32 = 0x40a0_0000;

/// Where the checkpoints are.
#[derive(Clone, Debug)]
pub struct IpAdapterSdxlPaths {
    /// The SDXL snapshot.
    pub sdxl_base: String,
    /// The resampler and the attention projections.
    pub ip_adapter: String,
    /// The image encoder, a file or a directory.
    pub image_encoder: String,
}

/// A reference-image request.
#[derive(Clone, Debug)]
pub struct IpAdapterSdxlRequest {
    pub prompt: String,
    pub negative: String,
    pub width: u32,
    pub height: u32,
    pub steps: usize,
    pub guidance: Real32,
    pub ip_adapter_scale: Real32,
    pub seed: u64,
}

impl Default for IpAdapterSdxlRequest {
    /// An empty prompt at 1024 by 1024, in 30 steps.
    fn default() -> (r: Self)
        ensures
            r.prompt@.len() == 0 && r.negative@.len() == 0,
            r.width == 1024 && r.height == 1024 && r.steps == 30 && r.seed == 0,
            r.guidance.bits == DEFAULT_GUIDANCE,
            r.ip_adapter_scale.bits == DEFAULT_IP_ADAPTER_SCALE,
    {
        IpAdapterSdxlRequest {
            prompt: String::new(),
            negative: String::new(),
            width: 1024,
            height: 1024,
            steps: 30,
            guidance: Real32 { bits: DEFAULT_GUIDANCE },
            ip_adapter_scale: Real32 { bits: DEFAULT_IP_ADAPTER_SCALE },
            seed: 0,
        }
    }
}

/// The weights of an image encoder.
#[derive(Clone, Copy, Debug, PartialEq, Eq, Structural)]
pub enum EncoderFile {
    /// The path itself.
    Given,
    /// `model.safetensors` of the directory.
    Model,
    /// `model.fp16.safetensors` of the directory.
    Fp16,
}

/// Chooses the weights of an image encoder: a file is used as it is; of a directory the
/// full-precision file is taken, or the half-precision one where that is missing.
pub fn resolve_image_encoder(path: &str, is_file: bool, model: bool, fp16: bool) -> (r: Result<
    EncoderFile,
    Error,
>)
    ensures
        if is_file {
            r == Ok::<EncoderFile, Error>(EncoderFile::Given)
        } else if model {
            r == Ok::<EncoderFile, Error>(EncoderFile::Model)
        } else if fp16 {
            r == Ok::<EncoderFile, Error>(EncoderFile::Fp16)
        } else {
            r matches Err(e) && e.says(
                "ip-adapter: CLIP image encoder not found under "@ + path@
                    + " (expected a model.safetensors or a direct .safetensors file)"@,
            )
        },
{
    if is_file {
        Ok(EncoderFile::Given)
    } else if model {
        Ok(EncoderFile::Model)
    } else if fp16 {
        Ok(EncoderFile::Fp16)
    } else {
        let mut s = join("ip-adapter: CLIP image encoder not found under ", path);
        s.append(" (expected a model.safetensors or a direct .safetensors file)");
        Err(Error::Msg(s))
    }
}

/// The parts of a reference-image model, by the positions of their tensors.
#[derive(Clone, Debug)]
pub struct IpAdapterParts {
    pub resampler: Resampler,
    /// The key and value projections of each cross-attention.
    pub pairs: Vec<(usize, usize)>,
    /// The cross-attentions that take them.
    pub layers: Vec<TransformerLayer>,
    pub tower: ClipVisionEncoder,
}

/// The resampler is found in the bundle.
pub open spec fn resampler_found(bundle: &Weights) -> bool {
    exists|v: Vec<usize>| #[trigger] bundle.is_all(Ok(v), keys_of("image_proj"@, 4))
}

/// `pairs` are the bundle's projections, in numeric order.
pub open spec fn pairs_found(bundle: &Weights, pairs: Vec<(usize, usize)>) -> bool {
    let all = kv_indices(bundle, bundle.tensors.len() as nat);
    all.len() > 0 && exists|order: Seq<u32>| #[trigger]
        is_sorting(order, all) && is_pairs(bundle, Ok(pairs), order)
}

/// The bundle has no complete projections, for the reason given.
pub open spec fn pairs_missing(bundle: &Weights, e: Error) -> bool {
    let all = kv_indices(bundle, bundle.tensors.len() as nat);
    if all.len() == 0 {
        e.says("ip_adapter: no ip_adapter.{n}.to_k_ip.weight keys found"@)
    } else {
        exists|order: Seq<u32>| #[trigger]
            is_sorting(order, all) && is_pairs(bundle, Err(e), order)
    }
}

/// The encoder's checkpoint has the layers of the tower.
pub open spec fn layers_match(encoder: &Weights) -> bool {
    last_layer(encoder, encoder.tensors.len() as nat) == Some(31nat)
}

/// What is said of a checkpoint with other layers than the tower's.
pub open spec fn wrong_layers(encoder: &Weights) -> Seq<char> {
    match last_layer(encoder, encoder.tensors.len() as nat) {
        Some(m) => "clip vision encoder: checkpoint has "@ + decimal(m + 1)
            + " layers but the config expects "@ + decimal(32) + " (wrong ViT-H/ViT-L variant?)"@,
        None => "clip vision encoder: no `vision_model.encoder.layers.{n}` keys found"@,
    }
}

/// Assembles a reference-image model from its bundle and its encoder's checkpoint: the resampler, the
/// projections in the order of the UNet's cross-attentions, and the vision tower. The first part that
/// is missing or does not fit is reported.
pub fn assemble(unet: &UNet2DConditionModel, bundle: &Weights, encoder: &Weights) -> (r: Result<
    IpAdapterParts,
    Error,
>)
    requires
        unet.wf(),
        is_sdxl_unet(&unet.config),
    ensures
        match r {
            Ok(p) => {
                &&& bundle.is_all(Ok(p.resampler.tensors), keys_of("image_proj"@, 4))
                &&& p.resampler.num_queries == 16 && p.resampler.output_dim == 2048
                    && p.resampler.dim == 1280
                &&& pairs_found(bundle, p.pairs) && p.pairs.len() == 70
                &&& p.layers@ == unet.processor_order()
                &&& layers_match(encoder)
                &&& encoder.is_all(Ok(p.tower.tensors), tower_keys(32))
                &&& p.tower.layers == 32 && p.tower.hidden == 1280 && p.tower.patch == 14
                    && p.tower.head_dim == 80
            },
            Err(e) => {
                ||| bundle.is_all(Err(e), keys_of("image_proj"@, 4))
                ||| resampler_found(bundle) && pairs_missing(bundle, e)
                ||| resampler_found(bundle) && exists|pairs: Vec<(usize, usize)>| #[trigger]
                    pairs_found(bundle, pairs) && {
                        ||| pairs.len() < 70 && e.says(IpAdapterError::FewerPairs.text())
                        ||| pairs.len() > 70 && e.says(IpAdapterError::MorePairs.text())
                        ||| pairs.len() == 70 && !layers_match(encoder) && e.says(
                            wrong_layers(encoder),
                        )
                        ||| pairs.len() == 70 && layers_match(encoder) && encoder.is_all(
                            Err(e),
                            tower_keys(32),
                        )
                    }
            },
        },
{
    let resampler = match Resampler::from_weights(
        bundle,
        "image_proj",
        &ResamplerConfig::plus_sdxl_vit_h(),
    ) {
        Ok(r) => r,
        Err(e) => {
            return Err(e);
        },
    };
    proof {
        assert(bundle.is_all(Ok(resampler.tensors), keys_of("image_proj"@, 4)));
        law_sdxl_takes_seventy_pairs(unet);
    }
    let pairs = match load_ip_kv_pairs(bundle) {
        Ok(p) => p,
        Err(e) => {
            return Err(e);
        },
    };
    proof {
        assert(pairs_found(bundle, pairs));
    }
    let layers = match unet.install_ip_adapter(pairs.len()) {
        Ok(l) => l,
        Err(e) => {
            return Err(Error::Msg(e.message()));
        },
    };
    let cfg = VisionConfig::vit_h_14();
    match check_layer_count(encoder, &cfg) {
        Ok(_) => {},
        Err(e) => {
            return Err(e);
        },
    }
    let tower = match ClipVisionEncoder::from_weights(encoder, &cfg) {
        Ok(t) => t,
        Err(e) => {
            return Err(e);
        },
    };
    Ok(IpAdapterParts { resampler, pairs, layers, tower })
}

/// What a reference-image render needs beside its encoded reference: its token rows, its image token
/// rows, its latent's size and its run.
#[derive(Clone, Debug)]
pub struct IpJob {
    pub rows: TokenRows,
    pub image_rows: Vec<TokenRow>,
    pub latent_height: u32,
    pub latent_width: u32,
    pub plan: RenderPlan,
}

/// What preparing a request gives, once its texts are tokenized to `rows`.
pub open spec fn is_prepared(
    r: Result<IpJob, Error>,
    req: &IpAdapterSdxlRequest,
    rows: Result<TokenRows, TokenError>,
    reference: &Image,
) -> bool {
    match rows {
        Err(e) => r matches Err(m) && m.says(e.text()),
        Ok(rows) => if !reference.fits() {
            r matches Err(m) && m.says(buffer_text("ip-adapter image buffer"@, reference))
        } else if reference.width == 0 || reference.height == 0 {
            r matches Err(m) && m.says(
                "ip-adapter reference image has a zero dimension ("@ + decimal(
                    reference.width as nat,
                ) + "x"@ + decimal(reference.height as nat) + ")"@,
            )
        } else {
            r matches Ok(job) && job.rows == rows && job.plan == ip_plan(req) && job.image_rows@
                == image_rows(req.guidance.above_one()) && job.latent_height == req.height as int
                / SPATIAL_SCALE as int && job.latent_width == req.width as int
                / SPATIAL_SCALE as int
        },
    }
}

/// Prepares a reference-image render: cancellation comes first, then the texts and the reference.
pub fn prepare(
    req: &IpAdapterSdxlRequest,
    tok_l: &TextTokenizer,
    tok_g: &TextTokenizer,
    reference: &Image,
    cancelled: bool,
) -> (r: Result<IpJob, Error>)
    requires
        cancelled || !reference.fits() || reference.width == 0 || reference.height == 0 || req.steps
            <= u32::MAX,
    ensures
        if cancelled {
            r == Err::<IpJob, Error>(Error::Canceled)
        } else {
            exists|rows: Result<TokenRows, TokenError>|
                is_encoding(
                    rows,
                    *tok_l,
                    *tok_g,
                    texts_of(req.prompt@, req.negative@, req.guidance.above_one()),
                ) && #[trigger] is_prepared(r, req, rows, reference)
        },
{
    if cancelled {
        return Err(Error::Canceled);
    }
    let cfg_on = req.guidance.exceeds_one();
    let encoded = encode(tok_l, tok_g, req.prompt.as_str(), req.negative.as_str(), cfg_on);
    let ghost rows = encoded;
    let r = match encoded {
        Err(e) => Err(Error::Msg(e.message())),
        Ok(rows) => match check_reference(reference) {
            Err(e) => Err(e),
            Ok(_) => Ok(
                IpJob {
                    rows,
                    image_rows: ip_tokens(cfg_on),
                    latent_height: req.height / SPATIAL_SCALE,
                    latent_width: req.width / SPATIAL_SCALE,
                    plan: plan(req),
                },
            ),
        },
    };
    proof {
        assert(is_prepared(r, req, rows, reference));
    }
    r
}

/// The run that a request asks for.
pub open spec fn ip_plan(req: &IpAdapterSdxlRequest) -> RenderPlan {
    RenderPlan {
        count: 1,
        steps: req.steps as u32,
        base_seed: req.seed,
        guided: req.guidance.above_one(),
        masked: false,
    }
}

/// The run that a request asks for: one image.
pub fn plan(req: &IpAdapterSdxlRequest) -> (r: RenderPlan)
    requires
        req.steps <= u32::MAX,
    ensures
        r == ip_plan(req),
{
    RenderPlan {
        count: 1,
        steps: req.steps as u32,
        base_seed: req.seed,
        guided: req.guidance.exceeds_one(),
        masked: false,
    }
}

/// A reference-image render is one image from the seed of its request, in as many steps as it asks for,
/// guided exactly where its guidance is above one, and with nothing kept.
pub proof fn law_reference_renders_are_as_asked(req: &IpAdapterSdxlRequest)
    requires
        req.steps <= u32::MAX,
    ensures
        ip_plan(req).count == 1,
        ip_plan(req).steps == req.steps,
        ip_plan(req).base_seed == req.seed,
        ip_plan(req).guided <==> req.guidance.above_one(),
        !ip_plan(req).masked,
{
}

/// A prepared render has its texts' rows, its image rows under the same guidance, and a latent of one
/// cell for each eight pixels.
pub proof fn law_prepared_renders_go_together(
    job: IpJob,
    req: &IpAdapterSdxlRequest,
    rows: TokenRows,
    reference: &Image,
)
    requires
        is_prepared(Ok(job), req, Ok(rows), reference),
        req.steps <= u32::MAX,
    ensures
        job.rows == rows,
        job.image_rows.len() == if job.plan.guided {
            2int
        } else {
            1int
        },
        8 * job.latent_height <= req.height < 8 * (job.latent_height + 1),
        8 * job.latent_width <= req.width < 8 * (job.latent_width + 1),
        reference.fits() && reference.width > 0 && reference.height > 0,
{
}

/// The parts of a reference-image model that its bundle and its encoder have to hold: a resampler of
/// four blocks, at least one pair of projections, and a tower of thirty-two layers.
pub proof fn law_models_have_their_parts(
    bundle: &Weights,
    pairs: Vec<(usize, usize)>,
    encoder: &Weights,
)
    ensures
        resampler_found(bundle) ==> exists|v: Vec<usize>| #[trigger]
            bundle.is_all(Ok(v), keys_of("image_proj"@, 4)) && v.len() == 51,
        pairs_found(bundle, pairs) ==> pairs.len() > 0 && pairs.len() == kv_indices(
            bundle,
            bundle.tensors.len() as nat,
        ).len(),
        layers_match(encoder) ==> {
            &&& exists|i: int|
                0 <= i < encoder.tensors.len() && layer_of((#[trigger] encoder.tensors[i]).name@)
                    == Some(31nat)
            &&& forall|i: int|
                0 <= i < encoder.tensors.len() ==> (layer_of((#[trigger] encoder.tensors[i]).name@)
                    matches Some(n) ==> n < 32)
        },
{
    if resampler_found(bundle) {
        let v = choose|v: Vec<usize>| #[trigger] bundle.is_all(Ok(v), keys_of("image_proj"@, 4));
        crate::sdxl::ip_adapter::law_resampler_keys_are_in_place("image_proj"@, 4, 0, 0);
        assert(bundle.is_all(Ok(v), keys_of("image_proj"@, 4)) && v.len() == 51);
    }
    if pairs_found(bundle, pairs) {
        let all = kv_indices(bundle, bundle.tensors.len() as nat);
        let order = choose|order: Seq<u32>| #[trigger]
            is_sorting(order, all) && is_pairs(bundle, Ok(pairs), order);
        crate::sdxl::ip_adapter::law_sorting_keeps_every_index(order, all, 0, 0);
    }
    crate::sdxl::vision_encoder::law_last_layer_is_the_largest(encoder, encoder.tensors.len() as nat);
}

} // verus!

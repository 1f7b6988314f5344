//! The SD3.5 providers: their identities, what they serve, and what they refuse to load.
use super::config::{Sd3Config, Variant};
use super::vae::SPATIAL_SCALE;
use crate::error::Error;
use crate::provider::{check_request, invalid};
use crate::request::{
    Capabilities, GenerationRequest, LoadSpec, Modality, ModelDescriptor, WeightsSource,
};
use crate::text::join;
use vstd::prelude::*;
use vstd::string::*;

verus! {

/// The registry id of Large.
pub const MODEL_ID: &'static str = "stable_diffusion_3_5_large";

/// The registry id of Large Turbo.
pub const MODEL_ID_TURBO: &'static str = "stable_diffusion_3_5_large_turbo";

/// Both sides of an image are multiples of this: latent cells of 8, patches of 2.
pub const SIZE_MULTIPLE: u32 = 16;

/// The variants that are registered under an id.
pub open spec fn registered(variant: Variant) -> bool {
    variant != Variant::Medium
}

/// The registry id of a variant.
pub open spec fn id_of(variant: Variant) -> &'static str {
    match variant {
        Variant::LargeTurbo => MODEL_ID_TURBO,
        _ => MODEL_ID,
    }
}

/// The registry id of a registered variant.
pub fn model_id(variant: Variant) -> (r: &'static str)
    requires
        registered(variant),
    ensures
        r == id_of(variant),
{
    match variant {
        Variant::LargeTurbo => MODEL_ID_TURBO,
        _ => MODEL_ID,
    }
}

/// `d` is what the variant advertises: text to image alone, with guidance and a negative prompt only
/// where the variant is not distilled.
pub open spec fn describes(d: &ModelDescriptor, variant: Variant) -> bool {
    let c = &d.capabilities;
    let guided = variant != Variant::LargeTurbo;
    &&& d.id == id_of(variant)
    &&& d.family == "stable-diffusion-3"
    &&& d.backend == "candle"
    &&& d.modality == Modality::Image
    &&& c.supports_negative_prompt == guided && c.supports_guidance == guided
    &&& !c.supports_true_cfg && !c.supports_lora && !c.supports_lokr
    &&& c.conditioning@.len() == 0 && c.supported_quants@.len() == 0
    &&& c.supported_guidance_methods@.len() == 0
    &&& c.min_size == 256 && c.max_size == 2048 && c.max_count == 8
    &&& !c.mac_only && !c.supports_kv_cache && !c.requires_sigma_shift
}

/// What a variant advertises, with the samplers and schedulers that the backend curates.
pub fn descriptor_for(variant: Variant, samplers: Vec<String>, schedulers: Vec<String>) -> (r:
    ModelDescriptor)
    requires
        registered(variant),
    ensures
        describes(&r, variant),
        r.capabilities.samplers == samplers,
        r.capabilities.schedulers == schedulers,
{
    let guided = match variant {
        Variant::LargeTurbo => false,
        _ => true,
    };
    ModelDescriptor {
        id: model_id(variant),
        family: "stable-diffusion-3",
        backend: "candle",
        modality: Modality::Image,
        capabilities: Capabilities {
            supports_negative_prompt: guided,
            supports_guidance: guided,
            supports_true_cfg: false,
            conditioning: Vec::new(),
            supports_lora: false,
            supports_lokr: false,
            samplers,
            schedulers,
            min_size: 256,
            max_size: 2048,
            max_count: 8,
            mac_only: false,
            supported_guidance_methods: Vec::new(),
            supported_quants: Vec::new(),
            supports_kv_cache: false,
            requires_sigma_shift: false,
        },
    }
}

/// What Large advertises: text to image with guidance and a negative prompt.
pub fn descriptor(samplers: Vec<String>, schedulers: Vec<String>) -> (r: ModelDescriptor)
    ensures
        describes(&r, Variant::Large),
        r.capabilities.samplers == samplers,
        r.capabilities.schedulers == schedulers,
{
    descriptor_for(Variant::Large, samplers, schedulers)
}

/// What Large Turbo advertises: distilled text to image, without guidance or a negative prompt.
pub fn descriptor_turbo(samplers: Vec<String>, schedulers: Vec<String>) -> (r: ModelDescriptor)
    ensures
        describes(&r, Variant::LargeTurbo),
        r.capabilities.samplers == samplers,
        r.capabilities.schedulers == schedulers,
{
    descriptor_for(Variant::LargeTurbo, samplers, schedulers)
}

/// A generator: what it serves, and where its weights are. Nothing is read before the first request.
#[derive(Clone, Debug)]
pub struct Sd3Generator {
    pub descriptor: ModelDescriptor,
    pub root: String,
    pub variant: Variant,
}

impl Sd3Generator {
    /// The generator is of a registered variant and advertises what that serves.
    pub open spec fn wf(&self) -> bool {
        registered(self.variant) && describes(&self.descriptor, self.variant)
    }

    /// Holds a request to what the variant serves.
    pub fn validate(&self, req: &GenerationRequest) -> (r: Result<(), Error>)
        requires
            self.wf(),
        ensures
            match r {
                Ok(_) => invalid(&self.descriptor.capabilities, req, SIZE_MULTIPLE) is None,
                Err(e) => invalid(&self.descriptor.capabilities, req, SIZE_MULTIPLE) matches Some(
                    why,
                ) && e.says(why.text(id_of(self.variant)@, ""@)),
            },
    {
        match check_request(&self.descriptor.capabilities, req, SIZE_MULTIPLE) {
            Ok(_) => Ok(()),
            Err(why) => Err(Error::Msg(why.message(model_id(self.variant), ""))),
        }
    }
}

/// What loading a variant from `spec` gives: the refusals come in this order.
pub open spec fn is_load_of(
    r: Result<Sd3Generator, Error>,
    spec: &LoadSpec,
    variant: Variant,
    samplers: Vec<String>,
    schedulers: Vec<String>,
) -> bool {
    let id = id_of(variant)@;
    match spec.weights {
        WeightsSource::File(_) => r matches Err(e) && e.says(
            id
                + " expects a snapshot directory (text_encoder/ text_encoder_2/ text_encoder_3/ transformer/ vae/), not a single .safetensors file"@,
        ),
        WeightsSource::Dir(root) => if spec.quantize is Some {
            r matches Err(e) && e.refuses(
                "candle "@ + id
                    + " does not support on-the-fly Q4/Q8 quantization yet (C4, sc-7879)"@,
            )
        } else if spec.control is Some || spec.extra_controls@.len() > 0 || spec.ip_adapter
            is Some {
            r matches Err(e) && e.refuses(
                "candle "@ + id
                    + " does not support control / IP-adapter overlays (txt2img only)"@,
            )
        } else if spec.adapters@.len() > 0 {
            r matches Err(e) && e.refuses(
                "candle "@ + id + " does not support LoRA/LoKr adapters yet"@,
            )
        } else {
            r matches Ok(g) && g.wf() && g.variant == variant && g.root@ == root@
                && g.descriptor.capabilities.samplers == samplers
                && g.descriptor.capabilities.schedulers == schedulers
        },
    }
}

fn refusal(id: &str, what: &str) -> (r: Error)
    ensures
        r.refuses("candle "@ + id@ + what@),
{
    let mut s = join("candle ", id);
    s.append(what);
    Error::Unsupported(s)
}

/// Makes the generator of a variant. Only a snapshot directory is taken, and a surface that is not
/// served is refused rather than dropped.
pub fn load_variant(
    spec: &LoadSpec,
    variant: Variant,
    samplers: Vec<String>,
    schedulers: Vec<String>,
) -> (r: Result<Sd3Generator, Error>)
    requires
        registered(variant),
    ensures
        is_load_of(r, spec, variant, samplers, schedulers),
{
    let id = model_id(variant);
    let root = match &spec.weights {
        WeightsSource::Dir(p) => p,
        WeightsSource::File(_) => {
            return Err(
                Error::Msg(
                    join(
                        id,
                        " expects a snapshot directory (text_encoder/ text_encoder_2/ text_encoder_3/ transformer/ vae/), not a single .safetensors file",
                    ),
                ),
            );
        },
    };
    if spec.quantize.is_some() {
        return Err(
            refusal(id, " does not support on-the-fly Q4/Q8 quantization yet (C4, sc-7879)"),
        );
    }
    if spec.control.is_some() || spec.extra_controls.len() > 0 || spec.ip_adapter.is_some() {
        return Err(
            refusal(id, " does not support control / IP-adapter overlays (txt2img only)"),
        );
    }
    if spec.adapters.len() > 0 {
        return Err(refusal(id, " does not support LoRA/LoKr adapters yet"));
    }
    Ok(
        Sd3Generator {
            descriptor: descriptor_for(variant, samplers, schedulers),
            root: root.clone(),
            variant,
        },
    )
}

/// Makes the generator of Large.
pub fn load(spec: &LoadSpec, samplers: Vec<String>, schedulers: Vec<String>) -> (r: Result<
    Sd3Generator,
    Error,
>)
    ensures
        is_load_of(r, spec, Variant::Large, samplers, schedulers),
{
    load_variant(spec, Variant::Large, samplers, schedulers)
}

/// Makes the generator of Large Turbo.
pub fn load_turbo(spec: &LoadSpec, samplers: Vec<String>, schedulers: Vec<String>) -> (r: Result<
    Sd3Generator,
    Error,
>)
    ensures
        is_load_of(r, spec, Variant::LargeTurbo, samplers, schedulers),
{
    load_variant(spec, Variant::LargeTurbo, samplers, schedulers)
}

/// Keeps the provider linked where it is reached through the registry alone.
pub fn force_link() {
}

/// The distilled variant serves no request with guidance or a negative prompt.
pub proof fn law_turbo_refuses_guidance(g: &Sd3Generator, req: &GenerationRequest)
    requires
        g.wf(),
        g.variant == Variant::LargeTurbo,
        req.guidance is Some || req.negative_prompt is Some,
    ensures
        invalid(&g.descriptor.capabilities, req, SIZE_MULTIPLE) is Some,
{
}

/// No variant serves a request with conditioning.
pub proof fn law_conditioning_is_refused(g: &Sd3Generator, req: &GenerationRequest)
    requires
        g.wf(),
        req.conditioning@.len() > 0,
    ensures
        invalid(&g.descriptor.capabilities, req, SIZE_MULTIPLE) is Some,
{
    crate::request::law_unadvertised_conditioning_is_rejected(&g.descriptor.capabilities, req);
}

/// Every served image is a whole grid of patches that the positional table covers.
pub proof fn law_served_images_patch_evenly(
    g: &Sd3Generator,
    req: &GenerationRequest,
    cfg: &Sd3Config,
)
    requires
        g.wf(),
        g.variant.has_config(cfg),
        invalid(&g.descriptor.capabilities, req, SIZE_MULTIPLE) is None,
    ensures
        ({
            let cell = SPATIAL_SCALE as int;
            let patch = cfg.patch_size as int;
            let (h, w) = (req.height as int / cell / patch, req.width as int / cell / patch);
            &&& h * patch * cell == req.height && w * patch * cell == req.width
            &&& 1 <= h <= cfg.pos_embed_max_size && 1 <= w <= cfg.pos_embed_max_size
        }),
{
    assert(cfg.patch_size == 2 && SPATIAL_SCALE == 8);
    let (h, w) = (req.height as int / 8 / 2, req.width as int / 8 / 2);
    assert(h * 2 * 8 == req.height && w * 2 * 8 == req.width);
    assert(h * cfg.patch_size * SPATIAL_SCALE == h * 2 * 8) by (nonlinear_arith)
        requires
            cfg.patch_size == 2,
            SPATIAL_SCALE == 8,
    ;
    assert(w * cfg.patch_size * SPATIAL_SCALE == w * 2 * 8) by (nonlinear_arith)
        requires
            cfg.patch_size == 2,
            SPATIAL_SCALE == 8,
    ;
}

/// A variant is loaded from a snapshot directory that nothing is laid over, and from nothing else; the
/// generator is that variant's, of that directory.
pub proof fn law_only_plain_snapshots_are_loaded(
    r: Result<Sd3Generator, Error>,
    spec: &LoadSpec,
    variant: Variant,
    samplers: Vec<String>,
    schedulers: Vec<String>,
)
    requires
        is_load_of(r, spec, variant, samplers, schedulers),
    ensures
        r is Ok <==> {
            &&& spec.weights is Dir
            &&& spec.quantize is None
            &&& spec.control is None && spec.extra_controls@.len() == 0 && spec.ip_adapter is None
            &&& spec.adapters@.len() == 0
        },
        r matches Ok(g) ==> {
            &&& spec.weights matches WeightsSource::Dir(root) && root@ == g.root@
            &&& g.variant == variant
            &&& g.wf()
            &&& g.descriptor.capabilities.samplers == samplers
            &&& g.descriptor.capabilities.schedulers == schedulers
        },
{
}

/// The registered variants have ids of their own.
pub proof fn law_variants_have_their_own_ids(a: Variant, b: Variant)
    requires
        registered(a),
        registered(b),
        id_of(a)@ == id_of(b)@,
    ensures
        a == b,
{
    reveal_strlit("stable_diffusion_3_5_large");
    reveal_strlit("stable_diffusion_3_5_large_turbo");
    assert(MODEL_ID@.len() == 26);
    assert(MODEL_ID_TURBO@.len() == 32);
}

/// A prompt is served at every size of whole patches in the advertised range, one image to eight at a
/// time; by Large with any guidance and negative prompt, by Turbo without.
pub proof fn law_prompts_are_served(g: &Sd3Generator, req: &GenerationRequest, across: int, down: int)
    requires
        g.wf(),
        req.prompt@.len() > 0,
        req.steps matches Some(n) ==> n > 0,
        1 <= req.count <= 8,
        16 <= across <= 128,
        16 <= down <= 128,
        req.width == 16 * across,
        req.height == 16 * down,
        req.sampler is None,
        req.conditioning@.len() == 0,
        g.variant == Variant::Large || (req.guidance is None && req.negative_prompt is None),
    ensures
        invalid(&g.descriptor.capabilities, req, SIZE_MULTIPLE) is None,
{
}

} // verus!

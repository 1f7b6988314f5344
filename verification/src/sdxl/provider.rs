//! The SDXL provider: its identity, what it serves, what it refuses to load, and its run-time
//! switches.
use super::pipeline::{plan_of, SPATIAL_SCALE};
use super::MODEL_ID;
use crate::error::Error;
use crate::provider::{check_request, invalid};
use crate::request::{
    Capabilities, GenerationRequest, LoadSpec, Modality, ModelDescriptor, WeightsSource,
};
use crate::text::views;
use vstd::prelude::*;
use vstd::string::*;

verus! {

/// Both sides of an image are multiples of the latent cell.
pub const SIZE_MULTIPLE: u32 = 8;

/// The largest side that is decoded in one pass.
pub const TILE_SIZE: u32 = 512;

/// The run-time switches that a worker drives.
#[derive(Clone, Copy, Debug, PartialEq, Eq, Structural)]
pub struct Toggles {
    pub flash_attn: bool,
    pub vae_tiling: bool,
}

impl Default for Toggles {
    /// Both are on.
    fn default() -> (r: Self)
        ensures
            r.flash_attn && r.vae_tiling,
    {
        Toggles { flash_attn: true, vae_tiling: true }
    }
}

/// Switches the fused attention of later loads on or off.
pub fn set_flash_attn(t: &mut Toggles, on: bool)
    ensures
        final(t).flash_attn == on,
        final(t).vae_tiling == old(t).vae_tiling,
{
    t.flash_attn = on;
}

/// Whether the fused attention is switched on.
pub fn flash_attn_enabled(t: &Toggles) -> (r: bool)
    ensures
        r == t.flash_attn,
{
    t.flash_attn
}

/// Whether a pipeline uses the fused attention: only where it was built in and is switched on.
pub fn uses_flash_attn(t: &Toggles, built: bool) -> (r: bool)
    ensures
        r == (t.flash_attn && built),
        !built ==> !r,
        !t.flash_attn ==> !r,
        built && t.flash_attn ==> r,
{
    flash_attn_enabled(t) && built
}

/// Switches the tiling of later decodes on or off.
pub fn set_vae_tiling(t: &mut Toggles, on: bool)
    ensures
        final(t).vae_tiling == on,
        final(t).flash_attn == old(t).flash_attn,
{
    t.vae_tiling = on;
}

/// Whether tiling is switched on.
pub fn vae_tiling_enabled(t: &Toggles) -> (r: bool)
    ensures
        r == t.vae_tiling,
{
    t.vae_tiling
}

/// Whether a decode to this size is tiled: only where tiling is switched on and the image exceeds one
/// tile.
pub fn tiles_decode(t: &Toggles, width: u32, height: u32) -> (r: bool)
    ensures
        r == (t.vae_tiling && (width > TILE_SIZE || height > TILE_SIZE)),
        !t.vae_tiling ==> !r,
        width <= 512 && height <= 512 ==> !r,
        t.vae_tiling && width > 512 ==> r,
        t.vae_tiling && height > 512 ==> r,
{
    vae_tiling_enabled(t) && (width > TILE_SIZE || height > TILE_SIZE)
}

/// `d` is what SDXL advertises: text to image with guidance and a negative prompt, one deterministic
/// sampler, and nothing else.
pub open spec fn describes(d: &ModelDescriptor) -> bool {
    let c = &d.capabilities;
    &&& d.id == MODEL_ID
    &&& d.family == "sdxl"
    &&& d.backend == "candle"
    &&& d.modality == Modality::Image
    &&& c.supports_negative_prompt && c.supports_guidance
    &&& !c.supports_true_cfg && !c.supports_lora && !c.supports_lokr
    &&& c.conditioning@.len() == 0 && c.supported_quants@.len() == 0
    &&& c.supported_guidance_methods@.len() == 0
    &&& views(c.samplers@) == seq!["ddim"@]
    &&& views(c.schedulers@) == seq!["discrete"@]
    &&& c.min_size == 512 && c.max_size == 2048 && c.max_count == 8
    &&& !c.mac_only && !c.supports_kv_cache && !c.requires_sigma_shift
}

fn one(s: &str) -> (r: Vec<String>)
    ensures
        views(r@) == seq![s@],
{
    let mut v: Vec<String> = Vec::new();
    v.push(String::from_str(s));
    proof {
        assert(views(v@) =~= seq![s@]);
    }
    v
}

/// What SDXL advertises.
pub fn descriptor() -> (r: ModelDescriptor)
    ensures
        describes(&r),
{
    ModelDescriptor {
        id: MODEL_ID,
        family: "sdxl",
        backend: "candle",
        modality: Modality::Image,
        capabilities: Capabilities {
            supports_negative_prompt: true,
            supports_guidance: true,
            supports_true_cfg: false,
            conditioning: Vec::new(),
            supports_lora: false,
            supports_lokr: false,
            samplers: one("ddim"),
            schedulers: one("discrete"),
            min_size: 512,
            max_size: 2048,
            max_count: 8,
            mac_only: false,
            supported_guidance_methods: Vec::new(),
            supported_quants: Vec::new(),
            supports_kv_cache: false,
            requires_sigma_shift: false,
        },
    }
}

/// A generator: what it serves, and where its weights are. Nothing is read before the first request.
#[derive(Clone, Debug)]
pub struct SdxlGenerator {
    pub descriptor: ModelDescriptor,
    pub root: String,
}

impl SdxlGenerator {
    /// The generator advertises what SDXL serves.
    pub open spec fn wf(&self) -> bool {
        describes(&self.descriptor)
    }

    /// Holds a request to what SDXL serves.
    pub fn validate(&self, req: &GenerationRequest) -> (r: Result<(), Error>)
        requires
            self.wf(),
        ensures
            match r {
                Ok(_) => invalid(&self.descriptor.capabilities, req, SIZE_MULTIPLE) is None,
                Err(e) => invalid(&self.descriptor.capabilities, req, SIZE_MULTIPLE) matches Some(
                    why,
                ) && e.says(
                    why.text(MODEL_ID@, " (an explicit 0 renders undenoised noise)"@),
                ),
            },
    {
        match check_request(&self.descriptor.capabilities, req, SIZE_MULTIPLE) {
            Ok(_) => Ok(()),
            Err(why) => Err(
                Error::Msg(
                    why.message(MODEL_ID, " (an explicit 0 renders undenoised noise)"),
                ),
            ),
        }
    }
}

/// Makes the SDXL generator. Only a snapshot directory is taken, and adapters are refused rather than
/// dropped.
pub fn load(spec: &LoadSpec) -> (r: Result<SdxlGenerator, Error>)
    ensures
        match spec.weights {
            WeightsSource::File(_) => r matches Err(e) && e.says(
                "sdxl expects a snapshot directory (text_encoder/ text_encoder_2/ unet/ …), not a single .safetensors file"@,
            ),
            WeightsSource::Dir(root) => if spec.adapters@.len() > 0 {
                r matches Err(e) && e.refuses(
                    "candle sdxl does not support LoRA/LoKr yet — refusing to silently drop the adapters"@,
                )
            } else {
                r matches Ok(g) && g.wf() && g.root@ == root@
            },
        },
{
    let root = match &spec.weights {
        WeightsSource::Dir(p) => p,
        WeightsSource::File(_) => {
            return Err(
                Error::Msg(
                    String::from_str(
                        "sdxl expects a snapshot directory (text_encoder/ text_encoder_2/ unet/ …), not a single .safetensors file",
                    ),
                ),
            );
        },
    };
    if spec.adapters.len() > 0 {
        return Err(
            Error::Unsupported(
                String::from_str(
                    "candle sdxl does not support LoRA/LoKr yet — refusing to silently drop the adapters",
                ),
            ),
        );
    }
    Ok(SdxlGenerator { descriptor: descriptor(), root: root.clone() })
}

/// Keeps the provider linked where it is reached through the registry alone.
pub fn force_link() {
}

/// SDXL serves no request with conditioning.
pub proof fn law_conditioning_is_refused(g: &SdxlGenerator, req: &GenerationRequest)
    requires
        g.wf(),
        req.conditioning@.len() > 0,
    ensures
        invalid(&g.descriptor.capabilities, req, SIZE_MULTIPLE) is Some,
{
    crate::request::law_unadvertised_conditioning_is_rejected(&g.descriptor.capabilities, req);
}

/// SDXL serves no named sampler but its own.
pub proof fn law_other_samplers_are_refused(g: &SdxlGenerator, req: &GenerationRequest)
    requires
        g.wf(),
        req.sampler is Some,
        req.sampler->0@ != "ddim"@,
    ensures
        invalid(&g.descriptor.capabilities, req, SIZE_MULTIPLE) is Some,
{
    let c = &g.descriptor.capabilities;
    assert(!c.has_sampler(req.sampler->0@)) by {
        if c.has_sampler(req.sampler->0@) {
            assert(seq!["ddim"@].contains(req.sampler->0@));
        }
    }
}

/// Every served image is a whole grid of latent cells, and its run has an image and a step.
pub proof fn law_served_requests_can_be_run(
    g: &SdxlGenerator,
    req: &GenerationRequest,
    default_seed: u64,
)
    requires
        g.wf(),
        invalid(&g.descriptor.capabilities, req, SIZE_MULTIPLE) is None,
    ensures
        (req.width as int / SPATIAL_SCALE as int) * 8 == req.width,
        (req.height as int / SPATIAL_SCALE as int) * 8 == req.height,
        plan_of(req, default_seed).count >= 1,
        plan_of(req, default_seed).steps >= 1,
{
}

/// A prompt is served at every size of whole latent cells in the advertised range, one image to eight
/// at a time, with any guidance and negative prompt.
pub proof fn law_prompts_are_served(
    g: &SdxlGenerator,
    req: &GenerationRequest,
    across: int,
    down: int,
)
    requires
        g.wf(),
        req.prompt@.len() > 0,
        req.steps matches Some(n) ==> n > 0,
        1 <= req.count <= 8,
        64 <= across <= 256,
        64 <= down <= 256,
        req.width == 8 * across,
        req.height == 8 * down,
        req.sampler matches Some(name) ==> name@ == "ddim"@,
        req.conditioning@.len() == 0,
    ensures
        invalid(&g.descriptor.capabilities, req, SIZE_MULTIPLE) is None,
{
    let c = &g.descriptor.capabilities;
    assert(views(c.samplers@)[0] == "ddim"@);
    assert(c.has_sampler("ddim"@));
}

} // verus!

//! What callers hand a provider: load specifications and generation requests, and the capability
//! floor every request is held to.
use crate::float::Real32;
use crate::text::{same, views};
use vstd::prelude::*;
use vstd::string::*;

verus! {

/// Where model weights live.
#[derive(Clone, Debug)]
pub enum WeightsSource {
    /// A snapshot directory.
    Dir(String),
    /// A single checkpoint file.
    File(String),
}

/// The declared kind of an adapter.
#[derive(Clone, Copy, Debug, PartialEq, Eq, Structural)]
pub enum AdapterKind {
    Lora,
    Lokr,
}

/// An adapter to fold in, at a strength.
#[derive(Clone, Debug)]
pub struct AdapterSpec {
    pub path: String,
    pub scale: Real32,
    pub kind: AdapterKind,
}

/// A weight quantization.
#[derive(Clone, Copy, Debug, PartialEq, Eq, Structural)]
pub enum Quant {
    Q4,
    Q8,
}

/// What to load.
#[derive(Clone, Debug)]
pub struct LoadSpec {
    pub weights: WeightsSource,
    pub quantize: Option<Quant>,
    pub control: Option<String>,
    pub extra_controls: Vec<String>,
    pub ip_adapter: Option<String>,
    pub adapters: Vec<AdapterSpec>,
}

impl LoadSpec {
    /// Plain weights, with no overlay.
    pub fn new(weights: WeightsSource) -> (r: Self)
        ensures
            r.weights == weights,
            r.quantize is None && r.control is None && r.ip_adapter is None,
            r.extra_controls@.len() == 0 && r.adapters@.len() == 0,
    {
        LoadSpec {
            weights,
            quantize: None,
            control: None,
            extra_controls: Vec::new(),
            ip_adapter: None,
            adapters: Vec::new(),
        }
    }
}

/// A kind of conditioning input.
#[derive(Clone, Copy, Debug, PartialEq, Eq, Structural)]
pub enum ConditioningKind {
    Reference,
    Mask,
    Control,
}

/// A text-to-image request.
#[derive(Clone, Debug)]
pub struct GenerationRequest {
    pub prompt: String,
    pub negative_prompt: Option<String>,
    pub width: u32,
    pub height: u32,
    pub count: u32,
    pub seed: Option<u64>,
    pub steps: Option<u32>,
    pub guidance: Option<Real32>,
    pub sampler: Option<String>,
    pub conditioning: Vec<ConditioningKind>,
}

impl Default for GenerationRequest {
    /// One 1024 by 1024 image of an empty prompt, with every knob at the model's own default.
    fn default() -> (r: Self)
        ensures
            r.prompt@.len() == 0 && r.negative_prompt is None,
            r.width == 1024 && r.height == 1024 && r.count == 1,
            r.seed is None && r.steps is None && r.guidance is None && r.sampler is None,
            r.conditioning@.len() == 0,
    {
        GenerationRequest {
            prompt: String::new(),
            negative_prompt: None,
            width: 1024,
            height: 1024,
            count: 1,
            seed: None,
            steps: None,
            guidance: None,
            sampler: None,
            conditioning: Vec::new(),
        }
    }
}

/// What a model generates.
#[derive(Clone, Copy, Debug, PartialEq, Eq, Structural)]
pub enum Modality {
    Image,
}

/// The surface that a model advertises.
#[derive(Clone, Debug)]
pub struct Capabilities {
    pub supports_negative_prompt: bool,
    pub supports_guidance: bool,
    pub supports_true_cfg: bool,
    pub conditioning: Vec<ConditioningKind>,
    pub supports_lora: bool,
    pub supports_lokr: bool,
    pub samplers: Vec<String>,
    pub schedulers: Vec<String>,
    pub supported_guidance_methods: Vec<String>,
    pub min_size: u32,
    pub max_size: u32,
    pub max_count: u32,
    pub mac_only: bool,
    pub supported_quants: Vec<Quant>,
    pub supports_kv_cache: bool,
    pub requires_sigma_shift: bool,
}

/// The identity of a model.
#[derive(Clone, Debug)]
pub struct ModelDescriptor {
    pub id: &'static str,
    pub family: &'static str,
    pub backend: &'static str,
    pub modality: Modality,
    pub capabilities: Capabilities,
}

/// A request that a model's advertised surface does not cover.
#[derive(Clone, Copy, Debug, PartialEq, Eq, Structural)]
pub enum Unserved {
    Count,
    Size,
    Guidance,
    NegativePrompt,
    Sampler,
    Conditioning,
}

impl Capabilities {
    /// Every conditioning entry of the request is of an advertised kind.
    pub open spec fn accepts_all(&self, kinds: Seq<ConditioningKind>) -> bool {
        forall|i: int| 0 <= i < kinds.len() ==> self.conditioning@.contains(#[trigger] kinds[i])
    }

    pub open spec fn has_sampler(&self, name: Seq<char>) -> bool {
        views(self.samplers@).contains(name)
    }

    pub open spec fn in_range(&self, size: u32) -> bool {
        self.min_size <= size <= self.max_size
    }

    /// The first reason, in order, why the advertised surface does not cover the request.
    pub open spec fn unserved(&self, req: &GenerationRequest) -> Option<Unserved> {
        if !(1 <= req.count <= self.max_count) {
            Some(Unserved::Count)
        } else if !self.in_range(req.width) || !self.in_range(req.height) {
            Some(Unserved::Size)
        } else if req.guidance is Some && !self.supports_guidance {
            Some(Unserved::Guidance)
        } else if req.negative_prompt is Some && !self.supports_negative_prompt {
            Some(Unserved::NegativePrompt)
        } else if req.sampler is Some && !self.has_sampler(req.sampler->0@) {
            Some(Unserved::Sampler)
        } else if !self.accepts_all(req.conditioning@) {
            Some(Unserved::Conditioning)
        } else {
            None
        }
    }

    /// Whether a kind of conditioning is advertised.
    pub fn accepts(&self, kind: ConditioningKind) -> (r: bool)
        ensures
            r == self.conditioning@.contains(kind),
    {
        let mut i: usize = 0;
        while i < self.conditioning.len()
            invariant
                i <= self.conditioning.len(),
                forall|k: int| 0 <= k < i ==> self.conditioning[k] != kind,
            decreases self.conditioning.len() - i,
        {
            if self.conditioning[i] == kind {
                return true;
            }
            i += 1;
        }
        false
    }

    fn lists_sampler(&self, name: &str) -> (r: bool)
        ensures
            r == self.has_sampler(name@),
    {
        let mut i: usize = 0;
        while i < self.samplers.len()
            invariant
                i <= self.samplers.len(),
                forall|k: int| 0 <= k < i ==> views(self.samplers@)[k] != name@,
            decreases self.samplers.len() - i,
        {
            if same(self.samplers[i].as_str(), name) {
                proof {
                    assert(views(self.samplers@)[i as int] == name@);
                }
                return true;
            }
            i += 1;
        }
        false
    }

    /// Holds a request to the advertised surface: count, size range, guidance, negative prompt,
    /// sampler, conditioning. A sampler is checked only where the request names one.
    pub fn validate_request(&self, req: &GenerationRequest) -> (r: Result<(), Unserved>)
        ensures
            match r {
                Ok(_) => self.unserved(req) is None,
                Err(e) => self.unserved(req) == Some(e),
            },
    {
        if req.count < 1 || req.count > self.max_count {
            return Err(Unserved::Count);
        }
        if req.width < self.min_size || req.width > self.max_size || req.height < self.min_size
            || req.height > self.max_size {
            return Err(Unserved::Size);
        }
        if req.guidance.is_some() && !self.supports_guidance {
            return Err(Unserved::Guidance);
        }
        if req.negative_prompt.is_some() && !self.supports_negative_prompt {
            return Err(Unserved::NegativePrompt);
        }
        if let Some(name) = &req.sampler {
            if !self.lists_sampler(name.as_str()) {
                return Err(Unserved::Sampler);
            }
        }
        let mut i: usize = 0;
        while i < req.conditioning.len()
            invariant
                i <= req.conditioning.len(),
                forall|k: int|
                    0 <= k < i ==> self.conditioning@.contains(#[trigger] req.conditioning@[k]),
                1 <= req.count <= self.max_count,
                self.in_range(req.width) && self.in_range(req.height),
                req.guidance is Some ==> self.supports_guidance,
                req.negative_prompt is Some ==> self.supports_negative_prompt,
                req.sampler is Some ==> self.has_sampler(req.sampler->0@),
            decreases req.conditioning.len() - i,
        {
            if !self.accepts(req.conditioning[i]) {
                return Err(Unserved::Conditioning);
            }
            i += 1;
        }
        Ok(())
    }
}

/// A model that advertises no conditioning serves no request that carries any.
pub proof fn law_unadvertised_conditioning_is_rejected(c: &Capabilities, req: &GenerationRequest)
    requires
        c.conditioning@.len() == 0,
        req.conditioning@.len() > 0,
    ensures
        c.unserved(req) is Some,
{
    let k = req.conditioning@[0];
    assert(!c.conditioning@.contains(k));
    assert(!c.accepts_all(req.conditioning@));
}

/// What a model advertises, it serves: a count and sides in their ranges, and nothing set that it does
/// not have.
pub proof fn law_advertised_requests_are_served(c: &Capabilities, req: &GenerationRequest)
    ensures
        c.unserved(req) is None <==> {
            &&& 1 <= req.count <= c.max_count
            &&& c.min_size <= req.width <= c.max_size
            &&& c.min_size <= req.height <= c.max_size
            &&& req.guidance is Some ==> c.supports_guidance
            &&& req.negative_prompt is Some ==> c.supports_negative_prompt
            &&& req.sampler matches Some(name) ==> views(c.samplers@).contains(name@)
            &&& forall|i: int|
                0 <= i < req.conditioning@.len() ==> c.conditioning@.contains(
                    #[trigger] req.conditioning@[i],
                )
        },
{
}

/// The reason that is given is true of the request.
pub proof fn law_reasons_are_true(c: &Capabilities, req: &GenerationRequest)
    requires
        c.unserved(req) is Some,
    ensures
        match c.unserved(req)->0 {
            Unserved::Count => req.count == 0 || req.count > c.max_count,
            Unserved::Size => req.width < c.min_size || req.width > c.max_size || req.height
                < c.min_size || req.height > c.max_size,
            Unserved::Guidance => req.guidance is Some && !c.supports_guidance,
            Unserved::NegativePrompt => req.negative_prompt is Some && !c.supports_negative_prompt,
            Unserved::Sampler => req.sampler matches Some(name) && !views(c.samplers@).contains(name@),
            Unserved::Conditioning => exists|i: int|
                0 <= i < req.conditioning@.len() && !c.conditioning@.contains(
                    #[trigger] req.conditioning@[i],
                ),
        },
        (req.count == 0 || req.count > c.max_count) ==> c.unserved(req) == Some(Unserved::Count),
{
}

} // verus!

//! What every text-to-image provider asks of a request, on top of its advertised surface.
use crate::request::{Capabilities, GenerationRequest, Unserved};
use crate::text::{decimal, decimal_of, join};
use vstd::prelude::*;
use vstd::string::*;

verus! {

/// Why a request is not served.
#[derive(Clone, Copy, Debug, PartialEq, Eq, Structural)]
pub enum Invalid {
    /// The advertised surface does not cover it.
    Unserved(Unserved),
    EmptyPrompt,
    /// No step at all was asked for.
    ZeroSteps,
    /// A side is no multiple of the latent cell.
    Size { width: u32, height: u32, multiple: u32 },
}

/// The first reason, in order, why a request is not served by a provider whose sides are multiples
/// of `multiple`.
pub open spec fn invalid(caps: &Capabilities, req: &GenerationRequest, multiple: u32) -> Option<
    Invalid,
> {
    if caps.unserved(req) is Some {
        Some(Invalid::Unserved(caps.unserved(req)->0))
    } else if req.prompt@.len() == 0 {
        Some(Invalid::EmptyPrompt)
    } else if req.steps == Some(0u32) {
        Some(Invalid::ZeroSteps)
    } else if req.width as int % multiple as int != 0 || req.height as int % multiple as int != 0 {
        Some(Invalid::Size { width: req.width, height: req.height, multiple })
    } else {
        None
    }
}

/// Holds a request to the advertised surface, and then to a prompt, a step and sides that are
/// multiples of `multiple`.
pub fn check_request(caps: &Capabilities, req: &GenerationRequest, multiple: u32) -> (r: Result<
    (),
    Invalid,
>)
    requires
        multiple > 0,
    ensures
        match r {
            Ok(_) => invalid(caps, req, multiple) is None,
            Err(e) => invalid(caps, req, multiple) == Some(e),
        },
{
    match caps.validate_request(req) {
        Ok(_) => {},
        Err(e) => {
            return Err(Invalid::Unserved(e));
        },
    }
    if req.prompt.as_str().unicode_len() == 0 {
        return Err(Invalid::EmptyPrompt);
    }
    if let Some(steps) = req.steps {
        if steps == 0 {
            return Err(Invalid::ZeroSteps);
        }
    }
    if req.width % multiple != 0 || req.height % multiple != 0 {
        return Err(Invalid::Size { width: req.width, height: req.height, multiple });
    }
    Ok(())
}

/// What of a request is not served, in words.
pub open spec fn unserved_text(u: Unserved) -> Seq<char> {
    match u {
        Unserved::Count => "count is out of range"@,
        Unserved::Size => "width/height is out of range"@,
        Unserved::Guidance => "guidance is not supported"@,
        Unserved::NegativePrompt => "negative prompt is not supported"@,
        Unserved::Sampler => "sampler is not supported"@,
        Unserved::Conditioning => "conditioning is not supported"@,
    }
}

impl Invalid {
    /// The reason in words, for the provider `id`; `note` follows the complaint about steps.
    pub open spec fn text(self, id: Seq<char>, note: Seq<char>) -> Seq<char> {
        id + ": "@ + match self {
            Invalid::Unserved(u) => unserved_text(u),
            Invalid::EmptyPrompt => "prompt must not be empty"@,
            Invalid::ZeroSteps => "steps must be >= 1"@ + note,
            Invalid::Size { width, height, multiple } => "width/height must be multiples of "@
                + decimal(multiple as nat) + " (got "@ + decimal(width as nat) + "x"@ + decimal(
                height as nat,
            ) + ")"@,
        }
    }

    /// The reason in words.
    pub fn message(&self, id: &str, note: &str) -> (r: String)
        ensures
            r@ == self.text(id@, note@),
    {
        let mut s = join(id, ": ");
        match *self {
            Invalid::Unserved(u) => {
                let what = match u {
                    Unserved::Count => "count is out of range",
                    Unserved::Size => "width/height is out of range",
                    Unserved::Guidance => "guidance is not supported",
                    Unserved::NegativePrompt => "negative prompt is not supported",
                    Unserved::Sampler => "sampler is not supported",
                    Unserved::Conditioning => "conditioning is not supported",
                };
                s.append(what);
            },
            Invalid::EmptyPrompt => {
                s.append("prompt must not be empty");
            },
            Invalid::ZeroSteps => {
                s.append(join("steps must be >= 1", note).as_str());
            },
            Invalid::Size { width, height, multiple } => {
                let mut t = join(
                    "width/height must be multiples of ",
                    decimal_of(multiple as usize).as_str(),
                );
                t.append(" (got ");
                t.append(decimal_of(width as usize).as_str());
                t.append("x");
                t.append(decimal_of(height as usize).as_str());
                t.append(")");
                s.append(t.as_str());
            },
        }
        s
    }
}

/// A request that is served has a prompt, sides in the advertised range that are whole cells, and no
/// conditioning of a kind that is not advertised.
pub proof fn law_served_requests_are_sound(
    caps: &Capabilities,
    req: &GenerationRequest,
    multiple: u32,
)
    requires
        invalid(caps, req, multiple) is None,
    ensures
        req.prompt@.len() > 0,
        req.steps != Some(0u32),
        caps.in_range(req.width) && caps.in_range(req.height),
        req.width as int % multiple as int == 0 && req.height as int % multiple as int == 0,
        1 <= req.count <= caps.max_count,
        caps.accepts_all(req.conditioning@),
{
}

/// Every sound request is served: one that the advertised surface covers, with a prompt, without a
/// step count of 0, and with sides of whole cells.
pub proof fn law_sound_requests_are_served(
    caps: &Capabilities,
    req: &GenerationRequest,
    multiple: u32,
    across: int,
    down: int,
)
    requires
        multiple > 0,
        caps.unserved(req) is None,
        req.prompt@.len() > 0,
        req.steps matches Some(n) ==> n > 0,
        req.width == across * multiple,
        req.height == down * multiple,
    ensures
        invalid(caps, req, multiple) is None,
{
    vstd::arithmetic::div_mod::lemma_mod_multiples_basic(across, multiple as int);
    vstd::arithmetic::div_mod::lemma_mod_multiples_basic(down, multiple as int);
}

/// The reason that is given is true of the request, and the advertised surface is asked first.
pub proof fn law_complaints_are_true(caps: &Capabilities, req: &GenerationRequest, multiple: u32)
    requires
        multiple > 0,
        invalid(caps, req, multiple) is Some,
    ensures
        match invalid(caps, req, multiple)->0 {
            Invalid::Unserved(u) => caps.unserved(req) == Some(u),
            Invalid::EmptyPrompt => req.prompt@.len() == 0,
            Invalid::ZeroSteps => req.steps == Some(0u32),
            Invalid::Size { width, height, multiple: m } => {
                &&& width == req.width && height == req.height && m == multiple
                &&& forall|a: int, b: int|
                    !(width == #[trigger] (a * multiple) && height == #[trigger] (b * multiple))
            },
        },
        caps.unserved(req) matches Some(u) ==> invalid(caps, req, multiple) == Some(
            Invalid::Unserved(u),
        ),
{
    if invalid(caps, req, multiple)->0 is Size {
        assert forall|a: int, b: int|
            !(req.width == #[trigger] (a * multiple) && req.height == #[trigger] (b * multiple)) by {
            vstd::arithmetic::div_mod::lemma_mod_multiples_basic(a, multiple as int);
            vstd::arithmetic::div_mod::lemma_mod_multiples_basic(b, multiple as int);
        }
    }
}

} // verus!

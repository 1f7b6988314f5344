//! Image editing: its request, the latent mask of a repainted region, and its run.
use super::conditioning::{encode, is_encoding, texts_of, TokenRows};
use super::pipeline::SPATIAL_SCALE;
use super::provider::SIZE_MULTIPLE;
use super::render::{RenderAction, RenderPlan, RenderRun};
use crate::error::Error;
use crate::float::{effective_steps, partial_steps, round_to, rounded, Real32};
use crate::image::{buffer_text, check_buffer, Image};
use crate::text::{decimal, decimal_of, join};
use crate::tokenizer::{TextTokenizer, TokenError};
use vstd::prelude::*;
use vstd::string::*;

verus! {

/// The bits of the single `0.8`, the strength of a plain edit.
pub const DEFAULT_EDIT_STRENGTH: u32 = 0x3f4c_cccd;

/// The bits of the single `0.85`, the strength of an edit with a mask.
pub const DEFAULT_INPAINT_STRENGTH: u32 = 0x3f59_999a;

/// The bits of the single `5.0`, the guidance of a request that does not say.
pub const DEFAULT_GUIDANCE: u32 = 0x40a0_0000;

/// Where the checkpoints are.
#[derive(Clone, Debug)]
pub struct SdxlEditPaths {
    /// The SDXL snapshot.
    pub sdxl_base: String,
}

/// An edit request.
#[derive(Clone, Debug)]
pub struct SdxlEditRequest {
    pub prompt: String,
    pub negative: String,
    pub width: u32,
    pub height: u32,
    pub steps: usize,
    pub guidance: Real32,
    /// The part of the schedule that is run: at one everything is redrawn, at zero nothing.
    pub strength: Real32,
    pub seed: u64,
}

impl Default for SdxlEditRequest {
    /// A plain edit at 1024 by 1024, in 30 steps.
    fn default() -> (r: Self)
        ensures
            r.prompt@.len() == 0 && r.negative@.len() == 0,
            r.width == 1024 && r.height == 1024 && r.steps == 30 && r.seed == 0,
            r.guidance.bits == DEFAULT_GUIDANCE,
            r.strength.bits == DEFAULT_EDIT_STRENGTH,
    {
        SdxlEditRequest {
            prompt: String::new(),
            negative: String::new(),
            width: 1024,
            height: 1024,
            steps: 30,
            guidance: Real32 { bits: DEFAULT_GUIDANCE },
            strength: Real32 { bits: DEFAULT_EDIT_STRENGTH },
            seed: 0,
        }
    }
}

/// The run that an edit asks for: one image, over the part of the schedule that the strength leaves.
pub open spec fn edit_plan(req: &SdxlEditRequest, masked: bool) -> RenderPlan {
    RenderPlan {
        count: 1,
        steps: partial_steps(req.steps as nat, req.strength) as u32,
        base_seed: req.seed,
        guided: req.guidance.above_one(),
        masked,
    }
}

/// The complaint about sides that are not whole latent cells.
pub open spec fn size_text(req: &SdxlEditRequest) -> Seq<char> {
    "sdxl edit: width/height must be multiples of "@ + decimal(SIZE_MULTIPLE as nat) + " (got "@
        + decimal(req.width as nat) + "x"@ + decimal(req.height as nat) + ")"@
}

/// Refuses an edit that is cancelled, or whose sides are not whole latent cells.
fn check_start(req: &SdxlEditRequest, cancelled: bool) -> (r: Result<(), Error>)
    ensures
        if cancelled {
            r == Err::<(), Error>(Error::Canceled)
        } else if !size_is_whole(req) {
            r matches Err(e) && e.says(size_text(req))
        } else {
            r is Ok
        },
{
    if cancelled {
        return Err(Error::Canceled);
    }
    if req.width % SIZE_MULTIPLE != 0 || req.height % SIZE_MULTIPLE != 0 {
        let mut s = join(
            "sdxl edit: width/height must be multiples of ",
            decimal_of(SIZE_MULTIPLE as usize).as_str(),
        );
        s.append(" (got ");
        s.append(decimal_of(req.width as usize).as_str());
        s.append("x");
        s.append(decimal_of(req.height as usize).as_str());
        s.append(")");
        return Err(Error::Msg(s));
    }
    Ok(())
}

/// The run that an edit asks for.
fn plan(req: &SdxlEditRequest, masked: bool) -> (r: RenderPlan)
    requires
        req.steps <= u32::MAX,
    ensures
        r == edit_plan(req, masked),
{
    let steps: usize = effective_steps(req.steps, req.strength);
    proof {
        lemma_steps_fit(req.steps as nat, req.strength);
    }
    RenderPlan {
        count: 1,
        steps: steps as u32,
        base_seed: req.seed,
        guided: req.guidance.exceeds_one(),
        masked,
    }
}

/// Starts an edit. A cancelled one is not started, and sides that are not whole latent cells are
/// refused. The steps of one that is started are counted in 32 bits.
pub fn start(req: &SdxlEditRequest, masked: bool, cancelled: bool) -> (r: Result<RenderPlan, Error>)
    requires
        cancelled || !size_is_whole(req) || req.steps <= u32::MAX,
    ensures
        if cancelled {
            r == Err::<RenderPlan, Error>(Error::Canceled)
        } else if !size_is_whole(req) {
            r matches Err(e) && e.says(size_text(req))
        } else {
            r == Ok::<RenderPlan, Error>(edit_plan(req, masked))
        },
{
    match check_start(req, cancelled) {
        Ok(_) => Ok(plan(req, masked)),
        Err(e) => Err(e),
    }
}

/// An edit of a schedule that is counted in 32 bits runs no more steps than that.
proof fn lemma_steps_fit(steps: nat, strength: Real32)
    requires
        steps <= u32::MAX,
    ensures
        partial_steps(steps, strength) <= steps,
{
    vstd::arithmetic::power2::lemma2_to64();
    vstd::arithmetic::power2::lemma_pow2_adds(32, 21);
    crate::float::law_clamped_is_at_most_one(strength);
    crate::float::law_strength_is_monotone(steps, strength, strength);
}

/// Refuses a source image whose buffer does not fit its size.
pub fn check_source(source: &Image) -> (r: Result<(), Error>)
    ensures
        match r {
            Ok(_) => source.fits(),
            Err(e) => !source.fits() && e.says(
                buffer_text("sdxl edit: source pixel buffer"@, source),
            ),
        },
{
    check_buffer("sdxl edit: source pixel buffer", source)
}

/// Refuses a mask whose buffer does not fit its size.
pub fn check_mask(mask: &Image) -> (r: Result<(), Error>)
    ensures
        match r {
            Ok(_) => mask.fits(),
            Err(e) => !mask.fits() && e.says(buffer_text("sdxl edit: mask pixel buffer"@, mask)),
        },
{
    check_buffer("sdxl edit: mask pixel buffer", mask)
}

/// What an edit needs beside its encoded source: its token rows, its latent's size and its run.
#[derive(Clone, Debug)]
pub struct EditJob {
    pub rows: TokenRows,
    pub latent_height: u32,
    pub latent_width: u32,
    pub plan: RenderPlan,
}

/// The sides are whole latent cells.
pub open spec fn size_is_whole(req: &SdxlEditRequest) -> bool {
    req.width as int % SIZE_MULTIPLE as int == 0 && req.height as int % SIZE_MULTIPLE as int == 0
}

/// What preparing an edit gives, once its texts are tokenized to `rows`: the first failure in this
/// order, or the job.
pub open spec fn is_prepared(
    r: Result<EditJob, Error>,
    req: &SdxlEditRequest,
    rows: Result<TokenRows, TokenError>,
    source: &Image,
    mask: Option<Image>,
) -> bool {
    match rows {
        Err(e) => r matches Err(m) && m.says(e.text()),
        Ok(rows) => if !source.fits() {
            r matches Err(m) && m.says(buffer_text("sdxl edit: source pixel buffer"@, source))
        } else if mask matches Some(m) && !m.fits() {
            r matches Err(e) && e.says(buffer_text("sdxl edit: mask pixel buffer"@, &mask->0))
        } else {
            r matches Ok(job) && job.rows == rows && job.plan == edit_plan(req, mask is Some)
                && job.latent_height == req.height as int / SPATIAL_SCALE as int
                && job.latent_width == req.width as int / SPATIAL_SCALE as int
        },
    }
}

/// Prepares an edit of `source`, or of the part of it that `mask` marks: cancellation and size come
/// first, then the texts, the source and the mask.
pub fn prepare(
    req: &SdxlEditRequest,
    tok_l: &TextTokenizer,
    tok_g: &TextTokenizer,
    source: &Image,
    mask: &Option<Image>,
    cancelled: bool,
) -> (r: Result<EditJob, Error>)
    requires
        cancelled || !size_is_whole(req) || !source.fits() || (*mask matches Some(m) && !m.fits())
            || req.steps <= u32::MAX,
    ensures
        if cancelled {
            r == Err::<EditJob, Error>(Error::Canceled)
        } else if !size_is_whole(req) {
            r matches Err(e) && e.says(size_text(req))
        } else {
            exists|rows: Result<TokenRows, TokenError>|
                is_encoding(
                    rows,
                    *tok_l,
                    *tok_g,
                    texts_of(req.prompt@, req.negative@, req.guidance.above_one()),
                ) && #[trigger] is_prepared(r, req, rows, source, *mask)
        },
{
    if let Err(e) = check_start(req, cancelled) {
        return Err(e);
    }
    let encoded = encode(
        tok_l,
        tok_g,
        req.prompt.as_str(),
        req.negative.as_str(),
        req.guidance.exceeds_one(),
    );
    let ghost rows = encoded;
    let r = match encoded {
        Err(e) => Err(Error::Msg(e.message())),
        Ok(rows) => match check_source(source) {
            Err(e) => Err(e),
            Ok(_) => {
                let checked = match mask {
                    Some(m) => check_mask(m),
                    None => Ok(()),
                };
                match checked {
                    Err(e) => Err(e),
                    Ok(_) => Ok(
                        EditJob {
                            rows,
                            latent_height: req.height / SPATIAL_SCALE,
                            latent_width: req.width / SPATIAL_SCALE,
                            plan: plan(req, mask.is_some()),
                        },
                    ),
                }
            },
        },
    };
    proof {
        assert(is_prepared(r, req, rows, source, *mask));
    }
    r
}

/// The luma of a colour in single precision, in units of `2^-27`: the weights 0.299, 0.587 and 0.114
/// as singles, with every product and sum rounded.
pub open spec fn luma(r: u8, g: u8, b: u8) -> nat {
    let red = rounded(40131100 * r as nat, 24);
    let green = rounded(78785808 * g as nat, 24);
    let blue = rounded(15300821 * b as nat, 24);
    rounded(rounded(red + green, 24) + blue, 24)
}

/// A colour is at least half white, which is repainted. No single below 127.5 has a quotient by 255
/// that rounds to one half.
pub open spec fn is_repainted(r: u8, g: u8, b: u8) -> bool {
    2 * luma(r, g, b) >= 255 * 0x800_0000
}

/// A product of two bytes' worth of luma, rounded.
fn weighted(weight: u128, v: u8) -> (r: u128)
    requires
        weight <= 0x800_0000,
    ensures
        r == rounded(weight as nat * v as nat, 24),
        r <= 2 * (0x800_0000 * 255),
{
    proof {
        vstd::arithmetic::power2::lemma2_to64();
        assert(weight * v <= 0x800_0000 * 255) by (nonlinear_arith)
            requires
                weight <= 0x800_0000,
                v <= 255,
        ;
    }
    round_to(weight * v as u128, 0x100_0000, Ghost(24))
}

fn repainted(r: u8, g: u8, b: u8) -> (out: bool)
    ensures
        out == is_repainted(r, g, b),
{
    proof {
        vstd::arithmetic::power2::lemma2_to64();
    }
    let red: u128 = weighted(40131100, r);
    let green: u128 = weighted(78785808, g);
    let blue: u128 = weighted(15300821, b);
    let warm: u128 = round_to(red + green, 0x100_0000, Ghost(24));
    let all: u128 = round_to(warm + blue, 0x100_0000, Ghost(24));
    2 * all >= 255 * 0x800_0000
}

/// The first byte of the pixel that cell `k` of the latent mask is taken from: the top left one of its
/// block.
pub open spec fn mask_source(k: int, width: int, cells: int) -> int {
    ((k / cells) * SPATIAL_SCALE * width + (k % cells) * SPATIAL_SCALE) * 3
}

/// Cell `k` of the latent mask.
pub open spec fn mask_cell(resized: Seq<u8>, width: int, cells: int, k: int) -> bool {
    let i = mask_source(k, width, cells);
    is_repainted(resized[i], resized[i + 1], resized[i + 2])
}

proof fn lemma_mask_source(k: int, width: int, height: int, cells: int, rows: int)
    requires
        0 < cells,
        0 <= rows,
        cells == width / 8,
        rows == height / 8,
        0 <= width,
        0 <= height,
        0 <= k < rows * cells,
    ensures
        0 <= k / cells < rows,
        0 <= k % cells < cells,
        0 <= (k / cells) * 8 * width,
        0 <= mask_source(k, width, cells),
        mask_source(k, width, cells) + 3 <= width * height * 3,
{
    vstd::arithmetic::div_mod::lemma_fundamental_div_mod(k, cells);
    vstd::arithmetic::div_mod::lemma_div_pos_is_pos(k, cells);
    let y = k / cells;
    let x = k % cells;
    assert(y < rows) by (nonlinear_arith)
        requires
            cells * y <= k,
            k < rows * cells,
            cells > 0,
    ;
    let py = y * 8;
    let px = x * 8;
    assert(py + 8 <= height && px + 8 <= width);
    assert(py * width + width <= height * width) by (nonlinear_arith)
        requires
            py + 1 <= height,
            width >= 0,
    ;
    assert(py * width >= 0) by (nonlinear_arith)
        requires
            py >= 0,
            width >= 0,
    ;
    assert(height * width == width * height) by (nonlinear_arith);
}

/// The latent mask of a mask at the render size: one cell for each block of 8 by 8, repainted where
/// its top left pixel is at least half white.
pub fn encode_mask(resized: &Vec<u8>, width: u32, height: u32) -> (r: Vec<bool>)
    requires
        resized.len() == width * height * 3,
    ensures
        ({
            let cells = width as int / SPATIAL_SCALE as int;
            let rows = height as int / SPATIAL_SCALE as int;
            r@ == Seq::new(
                (rows * cells) as nat,
                |k: int| mask_cell(resized@, width as int, cells, k),
            )
        }),
{
    let w: usize = width as usize;
    let cells: usize = (width / SPATIAL_SCALE) as usize;
    let rows: usize = (height / SPATIAL_SCALE) as usize;
    let mut out: Vec<bool> = Vec::new();
    proof {
        assert(rows * cells >= 0) by (nonlinear_arith);
        assert(rows * cells <= width * height * 3) by (nonlinear_arith)
            requires
                0 <= rows <= height,
                0 <= cells <= width,
        ;
    }
    if cells == 0 {
        proof {
            assert(rows * cells == 0) by (nonlinear_arith)
                requires
                    cells == 0,
            ;
            assert(out@ =~= Seq::new(
                (rows * cells) as nat,
                |k: int| mask_cell(resized@, width as int, cells as int, k),
            ));
        }
        return out;
    }
    let n: usize = rows * cells;
    let mut k: usize = 0;
    while k < n
        invariant
            k <= n,
            n == rows * cells,
            cells == width as int / 8,
            rows == height as int / 8,
            cells > 0,
            w == width,
            resized.len() == width * height * 3,
            out@ == Seq::new(
                k as nat,
                |k: int| mask_cell(resized@, width as int, cells as int, k),
            ),
        decreases n - k,
    {
        proof {
            lemma_mask_source(k as int, width as int, height as int, cells as int, rows as int);
        }
        let y: usize = (k / cells) * 8;
        let x: usize = (k % cells) * 8;
        let i: usize = (y * w + x) * 3;
        proof {
            assert(i == mask_source(k as int, width as int, cells as int));
        }
        out.push(repainted(resized[i], resized[i + 1], resized[i + 2]));
        k += 1;
    }
    out
}

/// A strength of zero or less runs no step, so that the source comes back as it was encoded; a
/// strength of one or more runs them all; and more strength never runs fewer.
pub proof fn law_strength_controls_the_run(a: &SdxlEditRequest, b: &SdxlEditRequest, masked: bool)
    requires
        a.steps == b.steps,
        a.steps <= u32::MAX,
        a.strength.clamped_units() <= b.strength.clamped_units(),
    ensures
        edit_plan(a, masked).steps <= edit_plan(b, masked).steps <= b.steps,
        a.strength.clamped_units() == 0 ==> edit_plan(a, masked).steps == 0,
        b.strength.clamped_units() == vstd::arithmetic::power2::pow2(149) ==> edit_plan(
            b,
            masked,
        ).steps == b.steps,
{
    vstd::arithmetic::power2::lemma2_to64();
    vstd::arithmetic::power2::lemma_pow2_adds(32, 21);
    crate::float::law_clamped_is_at_most_one(b.strength);
    crate::float::law_strength_is_monotone(a.steps as nat, a.strength, b.strength);
    crate::float::law_strength_ends(a.steps as nat, a.strength);
    crate::float::law_strength_ends(b.steps as nat, b.strength);
}

/// An edit renders one image from the seed of its request. It keeps a region exactly where it has a
/// mask, and guides exactly where its guidance is above one.
pub proof fn law_edits_are_rendered_as_asked(req: &SdxlEditRequest, masked: bool)
    requires
        req.steps <= u32::MAX,
    ensures
        edit_plan(req, masked).count == 1,
        edit_plan(req, masked).base_seed == req.seed,
        edit_plan(req, masked).masked == masked,
        edit_plan(req, masked).guided <==> req.guidance.above_one(),
        edit_plan(req, masked).steps <= req.steps,
{
    lemma_steps_fit(req.steps as nat, req.strength);
}

/// Every step of an inpaint pins the kept region, and no step of a plain edit does.
pub proof fn law_inpaints_keep_their_region(
    req: &SdxlEditRequest,
    masked: bool,
    run: RenderRun,
    cancel: bool,
)
    requires
        run.plan == edit_plan(req, masked),
    ensures
        run.action(cancel) matches RenderAction::Denoise { blend, .. } ==> blend == masked,
{
}

/// The weights of red, green and blue in a luma: thousandths of the whole, as near as singles hold
/// them.
pub open spec fn weighted_sum(r: u8, g: u8, b: u8) -> int {
    299 * r + 587 * g + 114 * b
}

/// A cell is repainted where its pixel is clearly more than half white, and kept where it is clearly
/// less: between a luma of 127 and of 128 singles decide.
pub proof fn law_white_is_repainted(r: u8, g: u8, b: u8)
    ensures
        weighted_sum(r, g, b) >= 128_000 ==> is_repainted(r, g, b),
        weighted_sum(r, g, b) <= 127_000 ==> !is_repainted(r, g, b),
{
    let (x, y, z) = (40131100 * r as nat, 78785808 * g as nat, 15300821 * b as nat);
    lemma_rounds_closely(x);
    lemma_rounds_closely(y);
    lemma_rounds_closely(z);
    let (red, green, blue) = (rounded(x, 24), rounded(y, 24), rounded(z, 24));
    lemma_rounds_closely(red + green);
    lemma_rounds_closely(rounded(red + green, 24) + blue);
}

/// Rounding to 24 bits changes a luma by less than a thousandth of a step.
proof fn lemma_rounds_closely(n: nat)
    requires
        n <= 0x20_0000_0000,
    ensures
        n - 0x4000 <= rounded(n, 24) <= n + 0x4000,
{
    vstd::arithmetic::power2::lemma2_to64();
    vstd::arithmetic::power2::lemma_pow2_adds(32, 6);
    crate::float::lemma_rounded_bounds(n, 24);
    let e = crate::float::excess(n, 24);
    if n == 0 {
        crate::float::lemma_short_is_exact(0, 24);
    } else {
        crate::float::lemma_excess(n, 24);
    }
    if n == 0 {
    } else if e > 14 {
        vstd::arithmetic::power2::lemma_pow2_adds((24 - 1) as nat, e);
        if e > 15 {
            vstd::arithmetic::power2::lemma_pow2_strictly_increases(15, e);
        }
        assert(pow2_of(23) * pow2_of(e) > 0x20_0000_0000) by (nonlinear_arith)
            requires
                pow2_of(23) == 0x80_0000,
                pow2_of(e) >= 0x8000,
        ;
    } else if e < 14 {
        vstd::arithmetic::power2::lemma_pow2_strictly_increases(e, 14);
    }
}

spec fn pow2_of(n: nat) -> nat {
    vstd::arithmetic::power2::pow2(n)
}

/// A brighter pixel is repainted wherever a darker one is.
pub proof fn law_repainting_is_monotone(r: u8, g: u8, b: u8, r2: u8, g2: u8, b2: u8)
    requires
        r <= r2,
        g <= g2,
        b <= b2,
    ensures
        is_repainted(r, g, b) ==> is_repainted(r2, g2, b2),
{
    crate::float::lemma_rounded_is_monotone(40131100 * r as nat, 40131100 * r2 as nat, 24);
    crate::float::lemma_rounded_is_monotone(78785808 * g as nat, 78785808 * g2 as nat, 24);
    crate::float::lemma_rounded_is_monotone(15300821 * b as nat, 15300821 * b2 as nat, 24);
    let warm = rounded(40131100 * r as nat, 24) + rounded(78785808 * g as nat, 24);
    let warm2 = rounded(40131100 * r2 as nat, 24) + rounded(78785808 * g2 as nat, 24);
    crate::float::lemma_rounded_is_monotone(warm, warm2, 24);
    crate::float::lemma_rounded_is_monotone(
        rounded(warm, 24) + rounded(15300821 * b as nat, 24),
        rounded(warm2, 24) + rounded(15300821 * b2 as nat, 24),
        24,
    );
}

/// The cell at row `y` and column `x` of the latent mask looks at the pixel at row `8 y` and column
/// `8 x` of the image, all three of its bytes.
pub proof fn law_cells_look_at_their_corner(
    resized: Seq<u8>,
    width: int,
    cells: int,
    y: int,
    x: int,
)
    requires
        0 <= y,
        0 <= x < cells,
    ensures
        ({
            let pixel = (8 * y) * width + 8 * x;
            mask_cell(resized, width, cells, y * cells + x) == is_repainted(
                resized[3 * pixel],
                resized[3 * pixel + 1],
                resized[3 * pixel + 2],
            )
        }),
{
    vstd::arithmetic::div_mod::lemma_fundamental_div_mod_converse(y * cells + x, cells, y, x);
    assert(y * 8 == 8 * y);
}

/// A prepared edit has its texts' rows and a latent of one cell for each eight pixels, and its run keeps
/// a region exactly where there is a mask.
pub proof fn law_prepared_edits_go_together(
    job: EditJob,
    req: &SdxlEditRequest,
    rows: TokenRows,
    source: &Image,
    mask: Option<Image>,
)
    requires
        is_prepared(Ok(job), req, Ok(rows), source, mask),
    ensures
        job.rows == rows,
        8 * job.latent_height <= req.height < 8 * (job.latent_height + 1),
        8 * job.latent_width <= req.width < 8 * (job.latent_width + 1),
        job.plan.masked <==> mask is Some,
        source.fits() && (mask matches Some(m) ==> m.fits()),
{
}

/// An edit is of whole latent cells: a size of eight times so many is taken, and no other.
pub proof fn law_edits_are_of_whole_cells(req: &SdxlEditRequest, across: int, down: int)
    ensures
        req.width == 8 * across && req.height == 8 * down ==> size_is_whole(req),
        size_is_whole(req) ==> req.width == 8 * (req.width as int / 8) && req.height == 8 * (
        req.height as int / 8),
{
}

} // verus!

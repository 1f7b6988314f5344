//! A render: a machine that names each next action of a run that prepares, denoises and decodes one
//! image after the other, and that stops where it is cancelled.
use vstd::prelude::*;

verus! {

/// The offset of the seed of a run's step noise from that of its first noise.
pub const STEP_RNG_SALT: u64 = 0x9E37_79B9_7F4A_7C15;

/// What a run reports.
#[derive(Clone, Copy, Debug, PartialEq, Eq, Structural)]
pub enum Progress {
    Step { current: u32, total: u32 },
    Decoding,
}

/// What a run asks for next.
#[derive(Clone, Copy, Debug, PartialEq, Eq, Structural)]
pub enum RenderAction {
    /// Draw the first noise of an image from `seed`; the step noise comes from `step_seed`.
    Prepare { image: u32, seed: u64, step_seed: u64 },
    /// Run one denoising step on `rows` copies of the latents, blend in the kept region where
    /// `blend` says so, and then report.
    Denoise { step: u32, rows: u32, blend: bool, report: Progress },
    /// Report, and then decode the image.
    Decode { image: u32, report: Progress },
    /// All images are there.
    Finish { images: u32 },
    /// The run was cancelled.
    Cancel,
}

/// What to render.
#[derive(Clone, Copy, Debug, PartialEq, Eq, Structural)]
pub struct RenderPlan {
    pub count: u32,
    pub steps: u32,
    pub base_seed: u64,
    /// Classifier-free guidance is on: the unconditioned row and the conditioned one are denoised
    /// together.
    pub guided: bool,
    /// A kept region is blended in after each step.
    pub masked: bool,
}

/// The seed of an image: the base seed and its index, wrapping.
pub open spec fn image_seed(base: u64, image: u32) -> u64 {
    ((base + image) % 0x1_0000_0000_0000_0000) as u64
}

/// The seed of the step noise that belongs to `seed`.
pub open spec fn step_seed(seed: u64) -> u64 {
    ((seed + STEP_RNG_SALT) % 0x1_0000_0000_0000_0000) as u64
}

impl RenderPlan {
    /// The action at `offset` of an image: its preparation, its steps, its decoding.
    pub open spec fn action_at(self, image: u32, offset: int) -> RenderAction {
        if image >= self.count {
            RenderAction::Finish { images: self.count }
        } else if offset == 0 {
            RenderAction::Prepare {
                image,
                seed: image_seed(self.base_seed, image),
                step_seed: step_seed(image_seed(self.base_seed, image)),
            }
        } else if offset <= self.steps {
            RenderAction::Denoise {
                step: (offset - 1) as u32,
                rows: if self.guided {
                    2
                } else {
                    1
                },
                blend: self.masked,
                report: Progress::Step { current: offset as u32, total: self.steps },
            }
        } else {
            RenderAction::Decode { image, report: Progress::Decoding }
        }
    }

    /// Cancellation is looked at before the action at `offset` of an image.
    pub open spec fn checks_at(self, image: u32, offset: int) -> bool {
        image < self.count && 1 <= offset <= self.steps
    }

    /// The actions of one image.
    pub open spec fn per_image(self) -> int {
        self.steps + 2
    }
}

/// A run. The caller performs each action and asks for the next one.
#[derive(Clone, Copy, Debug, PartialEq, Eq, Structural)]
pub struct RenderRun {
    pub plan: RenderPlan,
    pub image: u32,
    pub offset: u64,
    pub cancelled: bool,
}

impl RenderRun {
    pub open spec fn wf(self) -> bool {
        &&& self.image <= self.plan.count
        &&& self.offset < self.plan.per_image()
        &&& self.image == self.plan.count ==> self.offset == 0
    }

    /// The actions performed so far.
    pub open spec fn performed(self) -> int {
        self.image * self.plan.per_image() + self.offset
    }

    /// The run is over: every image is there.
    pub open spec fn finished(self) -> bool {
        self.image == self.plan.count
    }

    /// A run at its start.
    pub fn new(plan: RenderPlan) -> (r: Self)
        ensures
            r.wf() && r.plan == plan && r.image == 0 && r.offset == 0 && !r.cancelled,
            r.performed() == 0,
    {
        proof {
            assert(0 * plan.per_image() == 0);
        }
        RenderRun { plan, image: 0, offset: 0, cancelled: false }
    }

    /// The run after the next action; `cancel` says whether cancellation was asked for.
    pub open spec fn after(self, cancel: bool) -> Self {
        if self.cancelled || self.finished() {
            self
        } else if cancel && self.plan.checks_at(self.image, self.offset as int) {
            RenderRun { cancelled: true, ..self }
        } else if self.offset + 1 < self.plan.per_image() {
            RenderRun { offset: (self.offset + 1) as u64, ..self }
        } else {
            RenderRun { image: (self.image + 1) as u32, offset: 0, ..self }
        }
    }

    /// The next action; `cancel` says whether cancellation was asked for. It is heeded before each
    /// step, and never undone.
    pub open spec fn action(self, cancel: bool) -> RenderAction {
        if self.cancelled || (cancel && self.plan.checks_at(self.image, self.offset as int)) {
            RenderAction::Cancel
        } else {
            self.plan.action_at(self.image, self.offset as int)
        }
    }

    /// Names the next action and moves on.
    pub fn next(&mut self, cancel: bool) -> (r: RenderAction)
        requires
            old(self).wf(),
        ensures
            final(self).wf(),
            *final(self) == old(self).after(cancel),
            r == old(self).action(cancel),
    {
        if self.cancelled {
            return RenderAction::Cancel;
        }
        let plan = self.plan;
        let image: u32 = self.image;
        let offset: u64 = self.offset;
        if image >= plan.count {
            return RenderAction::Finish { images: plan.count };
        }
        let is_step = 1 <= offset && offset <= plan.steps as u64;
        if cancel && is_step {
            self.cancelled = true;
            return RenderAction::Cancel;
        }
        let action = if offset == 0 {
            let seed: u64 = plan.base_seed.wrapping_add(image as u64);
            let noise: u64 = seed.wrapping_add(STEP_RNG_SALT);
            RenderAction::Prepare { image, seed, step_seed: noise }
        } else if is_step {
            RenderAction::Denoise {
                step: (offset - 1) as u32,
                rows: if plan.guided {
                    2
                } else {
                    1
                },
                blend: plan.masked,
                report: Progress::Step { current: offset as u32, total: plan.steps },
            }
        } else {
            RenderAction::Decode { image, report: Progress::Decoding }
        };
        if offset < plan.steps as u64 + 1 {
            self.offset = offset + 1;
        } else {
            self.image = image + 1;
            self.offset = 0;
        }
        action
    }
}

/// A run that is not cancelled performs one action after the other, each image's preparation, steps
/// and decoding in order, and is over after exactly that many.
pub proof fn law_run_has_a_fixed_length(r: RenderRun, cancel: bool)
    requires
        r.wf(),
        !r.after(cancel).cancelled,
    ensures
        !r.finished() ==> r.after(cancel).performed() == r.performed() + 1,
        r.finished() <==> r.performed() == r.plan.count * r.plan.per_image(),
        r.performed() <= r.plan.count * r.plan.per_image(),
{
    let l = r.plan.per_image();
    let (i, c) = (r.image as int, r.plan.count as int);
    assert((i + 1) * l == i * l + l) by (nonlinear_arith);
    if i < c {
        assert((i + 1) * l <= c * l) by (nonlinear_arith)
            requires
                i + 1 <= c,
                l > 0,
        ;
    }
}

/// Cancellation holds for good: every later action says so, and nothing else happens.
pub proof fn law_cancel_is_final(r: RenderRun, first: bool, later: bool)
    requires
        r.action(first) == RenderAction::Cancel,
    ensures
        r.after(first).cancelled,
        r.after(first).action(later) == RenderAction::Cancel,
        r.after(first).after(later) == r.after(first),
{
}

/// Cancellation is heeded before a step, so that no further step is run, and nowhere else: a run
/// without steps prepares and decodes whatever is asked for.
pub proof fn law_cancel_is_prompt(r: RenderRun)
    requires
        r.wf(),
        !r.cancelled,
    ensures
        !(r.action(true) is Denoise),
        r.action(true) == (if r.action(false) is Denoise {
            RenderAction::Cancel
        } else {
            r.action(false)
        }),
{
}

/// The reports of an image's steps count up from one to the number of steps.
pub proof fn law_progress_counts_up(plan: RenderPlan, image: u32, k: int)
    requires
        image < plan.count,
        1 <= k <= plan.steps,
    ensures
        plan.action_at(image, k) matches RenderAction::Denoise { step, report, .. } && step == k - 1
            && report == (Progress::Step { current: k as u32, total: plan.steps }),
        plan.action_at(image, plan.steps + 1) == (RenderAction::Decode {
            image,
            report: Progress::Decoding,
        }),
{
}

/// The images of a run have different seeds, and an image's first noise and its step noise come from
/// different ones.
pub proof fn law_seeds_differ(base: u64, a: u32, b: u32)
    ensures
        a != b ==> image_seed(base, a) != image_seed(base, b),
        step_seed(image_seed(base, a)) != image_seed(base, a),
        a != b ==> step_seed(image_seed(base, a)) != step_seed(image_seed(base, b)),
{
}

/// The action, for another image of its run.
pub open spec fn renumbered(a: RenderAction, image: u32) -> RenderAction {
    match a {
        RenderAction::Prepare { seed, step_seed, .. } => RenderAction::Prepare {
            image,
            seed,
            step_seed,
        },
        RenderAction::Decode { report, .. } => RenderAction::Decode { image, report },
        other => other,
    }
}

/// An image of a run can be rendered alone: a run of one image with that image's seed performs the
/// same actions from the same seeds, and looks at cancellation in the same places.
pub proof fn law_an_image_can_be_rendered_alone(plan: RenderPlan, image: u32, offset: int)
    requires
        image < plan.count,
    ensures
        ({
            let alone = RenderPlan {
                count: 1,
                base_seed: image_seed(plan.base_seed, image),
                ..plan
            };
            &&& plan.action_at(image, offset) == renumbered(alone.action_at(0, offset), image)
            &&& plan.checks_at(image, offset) == alone.checks_at(0, offset)
            &&& plan.per_image() == alone.per_image()
        }),
{
}

/// Every step of a run denoises one row for each of the predictions that are mixed, two under guidance
/// and one otherwise, and blends in the kept region if and only if the plan has one.
pub proof fn law_steps_guide_and_blend_as_planned(r: RenderRun, cancel: bool)
    ensures
        r.action(cancel) matches RenderAction::Denoise { rows, blend, .. } ==> {
            &&& blend <==> r.plan.masked
            &&& rows == 2 <==> r.plan.guided
            &&& rows == 1 <==> !r.plan.guided
        },
{
}

/// The first image of a run has the base seed, every next one the seed after it, wrapping, and the step
/// noise a seed that is the salt further on.
pub proof fn law_seeds_follow_one_another(base: u64, image: u32)
    ensures
        image_seed(base, 0) == base,
        image < u32::MAX ==> image_seed(base, (image + 1) as u32) == image_seed(base, image)
            .wrapping_add(1),
        step_seed(base) == base.wrapping_add(STEP_RNG_SALT),
{
}

/// The run of a plan before its first action.
pub open spec fn unstarted(plan: RenderPlan) -> RenderRun {
    RenderRun { plan, image: 0, offset: 0, cancelled: false }
}

/// The run after `n` actions that nobody cancelled.
pub open spec fn driven(plan: RenderPlan, n: int) -> RenderRun
    decreases n,
{
    if n <= 0 {
        unstarted(plan)
    } else {
        driven(plan, n - 1).after(false)
    }
}

proof fn lemma_driven(plan: RenderPlan, image: int, offset: int)
    requires
        0 <= image <= plan.count,
        0 <= offset <= plan.steps + 1,
        image == plan.count ==> offset == 0,
    ensures
        driven(plan, image * (plan.steps + 2) + offset) == (RenderRun {
            plan,
            image: image as u32,
            offset: offset as u64,
            cancelled: false,
        }),
    decreases image, offset,
{
    let l = plan.steps + 2;
    assert(image * l >= 0) by (nonlinear_arith)
        requires
            image >= 0,
            l >= 0,
    ;
    if offset > 0 {
        lemma_driven(plan, image, offset - 1);
    } else if image > 0 {
        lemma_driven(plan, image - 1, l - 1);
        assert(image * l == (image - 1) * l + l) by (nonlinear_arith);
    } else {
        assert(0 * l == 0);
    }
}

/// A run that nobody cancels renders the images of its plan one after the other. Each is prepared from
/// its own seed, denoised in as many steps as the plan has, counted from one in the reports, and then
/// decoded under its own number.
pub proof fn law_run_renders_each_image(plan: RenderPlan, image: u32, step: int)
    requires
        image < plan.count,
        1 <= step <= plan.steps,
    ensures
        ({
            let first = image * (plan.steps + 2);
            &&& driven(plan, first).action(false) matches RenderAction::Prepare {
                image: i,
                seed,
                step_seed: noise,
            }
            &&& i == image && seed == plan.base_seed.wrapping_add(image as u64) && noise
                == seed.wrapping_add(STEP_RNG_SALT)
        }),
        ({
            let at = image * (plan.steps + 2) + step;
            &&& driven(plan, at).action(false) matches RenderAction::Denoise {
                step: s,
                report: Progress::Step { current, total },
                ..
            }
            &&& s + 1 == step && current == step && total == plan.steps
        }),
        ({
            let last = image * (plan.steps + 2) + plan.steps + 1;
            driven(plan, last).action(false) == (RenderAction::Decode {
                image,
                report: Progress::Decoding,
            })
        }),
{
    lemma_driven(plan, image as int, 0);
    lemma_driven(plan, image as int, step);
    lemma_driven(plan, image as int, plan.steps + 1);
}

/// Each image of a run is prepared from its own seed, whether the run has steps or not.
pub proof fn law_image_is_prepared(plan: RenderPlan, image: u32)
    requires
        image < plan.count,
    ensures
        ({
            &&& driven(plan, image * (plan.steps + 2)).action(false) matches RenderAction::Prepare {
                image: i,
                seed,
                ..
            }
            &&& i == image && seed == plan.base_seed.wrapping_add(image as u64)
        }),
{
    lemma_driven(plan, image as int, 0);
}

/// A run that nobody cancels ends after exactly that, with as many images as its plan has. One without
/// steps prepares and decodes each image.
pub proof fn law_run_finishes_with_every_image(plan: RenderPlan, image: u32)
    ensures
        driven(plan, plan.count * (plan.steps + 2)).action(false) == (RenderAction::Finish {
            images: plan.count,
        }),
        image < plan.count && plan.steps == 0 ==> {
            &&& driven(plan, image * 2).action(false) is Prepare
            &&& driven(plan, image * 2 + 1).action(false) matches RenderAction::Decode { image: i, .. }
            &&& i == image
        },
{
    lemma_driven(plan, plan.count as int, 0);
    if image < plan.count && plan.steps == 0 {
        lemma_driven(plan, image as int, 0);
        lemma_driven(plan, image as int, 1);
    }
}

/// The noise of the steps is drawn from a seed that is the image's own, the salt further on; so two
/// images whose seeds differ do not share it.
pub proof fn law_step_noise_is_salted(seed: u64, other: u64)
    ensures
        step_seed(seed) == seed + STEP_RNG_SALT || step_seed(seed) + 0x1_0000_0000_0000_0000 == seed
            + STEP_RNG_SALT,
        step_seed(seed) == step_seed(other) ==> seed == other,
        step_seed(seed) != seed,
{
    let n = 0x1_0000_0000_0000_0000int;
    let a = seed + STEP_RNG_SALT;
    let b = other + STEP_RNG_SALT;
    assert(a % n == if a < n {
        a
    } else {
        a - n
    });
    assert(b % n == if b < n {
        b
    } else {
        b - n
    });
}

} // verus!

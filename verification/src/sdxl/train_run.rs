//! The training run: a machine that names each next action of a run that caches a dataset, steps
//! an adapter, checkpoints it and saves it, and that stops where it is cancelled.
use super::training::{
    adapter_path, sample_timestep, SavePath, TrainingConfig, TrainingRequest, NUM_TRAIN_TIMESTEPS,
};
use crate::float::Real32;
use crate::rng::first_draw;
use vstd::arithmetic::div_mod::{
    lemma_fundamental_div_mod, lemma_fundamental_div_mod_converse,
};
use vstd::prelude::*;

verus! {

/// What a run reports.
#[derive(Clone, Copy, Debug, PartialEq, Eq, Structural)]
pub enum TrainingProgress {
    Preparing,
    LoadingModel,
    Caching { current: u32, total: u32 },
    Training { step: u32, total: u32, loss: Real32 },
    Checkpoint { step: u32 },
    Saving,
}

/// The inputs of one optimisation micro-step.
#[derive(Clone, Copy, Debug, PartialEq, Eq, Structural)]
pub struct MicroStep {
    pub step: u32,
    /// The cached sample to train on; samples are taken in turn.
    pub sample: usize,
    /// The noise-schedule timestep.
    pub timestep: usize,
    /// The seed of the diffusion noise, which is also the regression target.
    pub noise_seed: u64,
}

/// What a run asks for next.
#[derive(Clone, Copy, Debug, PartialEq, Eq, Structural)]
pub enum TrainAction {
    Report(TrainingProgress),
    /// Load the autoencoder and the text encoders.
    LoadModel,
    /// Encode this dataset item and cache it.
    CacheItem(usize),
    /// Drop the encoders, build the UNet and install the adapter.
    BuildAdapter,
    /// Compute the loss and its gradients, and add them to the accumulated ones.
    Step(MicroStep),
    /// Step the optimizer with the accumulated gradients of `micro_steps` steps over `divisor`, and
    /// clear them.
    Update { index: u32, micro_steps: u32, divisor: u32 },
    SaveCheckpoint { step: u32 },
    SaveAdapter,
    Done { steps: u32, final_loss: Real32 },
    /// The run was cancelled before the adapter had learned anything.
    Canceled,
    /// No dataset item could be cached.
    NoUsableItems,
    /// The run is over.
    Idle,
}

/// Where a run stands.
#[derive(Clone, Copy, Debug, PartialEq, Eq, Structural)]
pub enum Phase {
    Prepare,
    Announce,
    Load,
    NextItem,
    Cache,
    NextStep,
    AwaitLoss,
    ReportStep,
    StepReported,
    CheckpointSaved,
    CheckpointReported,
    Save,
    Finish,
    Ended,
}

/// A training run. The caller performs each action and asks for the next one.
#[derive(Clone, Copy, Debug, PartialEq, Eq, Structural)]
pub struct TrainRun {
    pub items: u32,
    pub steps: u32,
    pub accum: u32,
    pub save_every: u32,
    pub seed: u64,
    pub phase: Phase,
    pub cached: u32,
    /// The micro-step that is due or under way, from 1.
    pub step: u64,
    pub steps_run: u32,
    /// Optimizer updates so far.
    pub updates: u32,
    /// Micro-steps accumulated since the last update.
    pub pending: u32,
    pub last_loss: Real32,
}

impl TrainRun {
    /// Step `s` ends an accumulation window, or the run.
    pub open spec fn update_due(self, s: int) -> bool {
        s % self.accum as int == 0 || s == self.steps
    }

    /// Step `s` is followed by an intermediate checkpoint. The last step never is.
    pub open spec fn checkpoint_due(self, s: int) -> bool {
        self.save_every > 0 && s % self.save_every as int == 0 && s != self.steps
    }

    /// The optimizer updates that the first `k` steps call for: one for each full accumulation
    /// window, and one for the remainder of the last.
    pub open spec fn updates_by(self, k: int) -> int {
        k / self.accum as int + if k == self.steps && k % self.accum as int != 0 {
            1int
        } else {
            0int
        }
    }

    /// The inputs of step `s`: the cached samples in turn, and a timestep and noise that the seed
    /// and the step determine.
    pub open spec fn micro_step(self, s: int) -> MicroStep {
        MicroStep {
            step: s as u32,
            sample: ((s - 1) % self.cached as int) as usize,
            timestep: first_draw(
                self.seed.wrapping_mul(0x9E37_79B9).wrapping_add(s as u64),
                NUM_TRAIN_TIMESTEPS,
            ),
            noise_seed: (self.seed.wrapping_add(s as u64).wrapping_mul(2) + 1) as u64,
        }
    }

    /// A run over `items` dataset items, before its first action.
    pub open spec fn fresh(cfg: &TrainingConfig, items: u32) -> Self {
        TrainRun {
            items,
            steps: cfg.steps,
            accum: if cfg.gradient_accumulation == 0 {
                1
            } else {
                cfg.gradient_accumulation
            },
            save_every: cfg.save_every,
            seed: cfg.seed,
            phase: Phase::Prepare,
            cached: 0,
            step: 1,
            steps_run: 0,
            updates: 0,
            pending: 0,
            last_loss: Real32 { bits: 0 },
        }
    }

    /// Every micro-step so far is counted once: in an update, or among the pending ones.
    pub open spec fn wf(self) -> bool {
        &&& self.accum >= 1
        &&& self.cached <= self.items
        &&& self.steps_run <= self.steps
        &&& self.updates == self.updates_by(self.steps_run as int)
        &&& self.pending == if self.steps_run == self.steps {
            0int
        } else {
            self.steps_run as int % self.accum as int
        }
        &&& match self.phase {
            Phase::Prepare | Phase::Announce | Phase::Load | Phase::NextItem => self.step == 1
                && self.steps_run == 0,
            Phase::Cache => self.step == 1 && self.steps_run == 0 && self.cached < self.items,
            Phase::NextStep => self.step == self.steps_run + 1 && self.cached > 0,
            Phase::AwaitLoss => self.step == self.steps_run + 1 && self.step <= self.steps
                && self.cached > 0,
            Phase::ReportStep | Phase::StepReported | Phase::CheckpointSaved
            | Phase::CheckpointReported => self.step == self.steps_run && self.steps_run >= 1
                && self.cached > 0,
            Phase::Save | Phase::Finish => self.steps_run >= 1,
            Phase::Ended => true,
        }
    }

    /// The loop head: run the due step, or stop. A run that was stopped before its first step is
    /// cancelled; any other saves what it has.
    pub open spec fn at_step(self, cancelled: bool) -> (Self, TrainAction) {
        if self.step <= self.steps && !cancelled {
            (
                TrainRun { phase: Phase::AwaitLoss, ..self },
                TrainAction::Step(self.micro_step(self.step as int)),
            )
        } else if self.steps_run == 0 {
            (TrainRun { phase: Phase::Ended, ..self }, TrainAction::Canceled)
        } else {
            (
                TrainRun { phase: Phase::Save, ..self },
                TrainAction::Report(TrainingProgress::Saving),
            )
        }
    }

    /// The report on the step that was just run.
    pub open spec fn step_report(self) -> (Self, TrainAction) {
        (
            TrainRun { phase: Phase::StepReported, ..self },
            TrainAction::Report(
                TrainingProgress::Training {
                    step: self.step as u32,
                    total: self.steps,
                    loss: self.last_loss,
                },
            ),
        )
    }

    /// The state and the action that follow, given the cancel flag and, after a micro-step, its
    /// loss.
    pub open spec fn following(self, cancelled: bool, loss: Real32) -> (Self, TrainAction) {
        match self.phase {
            Phase::Prepare => (
                TrainRun { phase: Phase::Announce, ..self },
                TrainAction::Report(TrainingProgress::Preparing),
            ),
            Phase::Announce => (
                TrainRun { phase: Phase::Load, ..self },
                TrainAction::Report(TrainingProgress::LoadingModel),
            ),
            Phase::Load => (TrainRun { phase: Phase::NextItem, ..self }, TrainAction::LoadModel),
            Phase::NextItem => if self.cached < self.items && !cancelled {
                (
                    TrainRun { phase: Phase::Cache, ..self },
                    TrainAction::Report(
                        TrainingProgress::Caching {
                            current: (self.cached + 1) as u32,
                            total: self.items,
                        },
                    ),
                )
            } else if self.cached > 0 {
                (TrainRun { phase: Phase::NextStep, ..self }, TrainAction::BuildAdapter)
            } else if cancelled {
                (TrainRun { phase: Phase::Ended, ..self }, TrainAction::Canceled)
            } else {
                (TrainRun { phase: Phase::Ended, ..self }, TrainAction::NoUsableItems)
            },
            Phase::Cache => (
                TrainRun { phase: Phase::NextItem, cached: (self.cached + 1) as u32, ..self },
                TrainAction::CacheItem(self.cached as usize),
            ),
            Phase::NextStep => self.at_step(cancelled),
            Phase::AwaitLoss => {
                let ran = TrainRun { last_loss: loss, steps_run: self.step as u32, ..self };
                if self.update_due(self.step as int) {
                    (
                        TrainRun {
                            phase: Phase::ReportStep,
                            updates: (self.updates + 1) as u32,
                            pending: 0,
                            ..ran
                        },
                        TrainAction::Update {
                            index: self.updates,
                            micro_steps: (self.pending + 1) as u32,
                            divisor: self.accum,
                        },
                    )
                } else {
                    TrainRun { pending: (self.pending + 1) as u32, ..ran }.step_report()
                }
            },
            Phase::ReportStep => self.step_report(),
            Phase::StepReported => if self.checkpoint_due(self.step as int) {
                (
                    TrainRun { phase: Phase::CheckpointSaved, ..self },
                    TrainAction::SaveCheckpoint { step: self.step as u32 },
                )
            } else {
                TrainRun { step: (self.step + 1) as u64, ..self }.at_step(cancelled)
            },
            Phase::CheckpointSaved => (
                TrainRun { phase: Phase::CheckpointReported, ..self },
                TrainAction::Report(TrainingProgress::Checkpoint { step: self.step as u32 }),
            ),
            Phase::CheckpointReported => TrainRun {
                step: (self.step + 1) as u64,
                ..self
            }.at_step(cancelled),
            Phase::Save => (TrainRun { phase: Phase::Finish, ..self }, TrainAction::SaveAdapter),
            Phase::Finish => (
                TrainRun { phase: Phase::Ended, ..self },
                TrainAction::Done { steps: self.steps_run, final_loss: self.last_loss },
            ),
            Phase::Ended => (self, TrainAction::Idle),
        }
    }

    /// A bound on the actions that are left.
    pub open spec fn left(self) -> int {
        let per_step = 6 * (self.steps - self.step + 1);
        match self.phase {
            Phase::Prepare => 2 * (self.items - self.cached) + 6 * self.steps + 9,
            Phase::Announce => 2 * (self.items - self.cached) + 6 * self.steps + 8,
            Phase::Load => 2 * (self.items - self.cached) + 6 * self.steps + 7,
            Phase::NextItem => 2 * (self.items - self.cached) + 6 * self.steps + 6,
            Phase::Cache => 2 * (self.items - self.cached) + 6 * self.steps + 5,
            Phase::NextStep => per_step + 5,
            Phase::AwaitLoss => per_step + 4,
            Phase::ReportStep => per_step + 3,
            Phase::StepReported => per_step + 2,
            Phase::CheckpointSaved => per_step + 1,
            Phase::CheckpointReported => per_step,
            Phase::Save => 2,
            Phase::Finish => 1,
            Phase::Ended => 0,
        }
    }

    /// Starts a run over `items` dataset items.
    pub fn new(cfg: &TrainingConfig, items: u32) -> (r: Self)
        ensures
            r == TrainRun::fresh(cfg, items),
            r.wf(),
    {
        TrainRun {
            items,
            steps: cfg.steps,
            accum: if cfg.gradient_accumulation == 0 {
                1
            } else {
                cfg.gradient_accumulation
            },
            save_every: cfg.save_every,
            seed: cfg.seed,
            phase: Phase::Prepare,
            cached: 0,
            step: 1,
            steps_run: 0,
            updates: 0,
            pending: 0,
            last_loss: Real32 { bits: 0 },
        }
    }

    fn enter_step(self, cancelled: bool) -> (r: (Self, TrainAction))
        requires
            self.step >= 1,
            self.cached > 0,
        ensures
            r == self.at_step(cancelled),
    {
        if self.step <= self.steps as u64 && !cancelled {
            let s: u64 = self.step;
            let micro = MicroStep {
                step: s as u32,
                sample: ((s - 1) % self.cached as u64) as usize,
                timestep: sample_timestep(self.seed.wrapping_mul(0x9E37_79B9).wrapping_add(s)),
                noise_seed: self.seed.wrapping_add(s).wrapping_mul(2) + 1,
            };
            (TrainRun { phase: Phase::AwaitLoss, ..self }, TrainAction::Step(micro))
        } else if self.steps_run == 0 {
            (TrainRun { phase: Phase::Ended, ..self }, TrainAction::Canceled)
        } else {
            (
                TrainRun { phase: Phase::Save, ..self },
                TrainAction::Report(TrainingProgress::Saving),
            )
        }
    }

    fn report_step(self) -> (r: (Self, TrainAction))
        requires
            self.step <= u32::MAX,
        ensures
            r == self.step_report(),
    {
        (
            TrainRun { phase: Phase::StepReported, ..self },
            TrainAction::Report(
                TrainingProgress::Training {
                    step: self.step as u32,
                    total: self.steps,
                    loss: self.last_loss,
                },
            ),
        )
    }

    /// The next action of the run. `cancelled` is the caller's cancel flag; `loss` is the loss of
    /// the micro-step that was just performed, where the last action asked for one.
    pub fn next(&mut self, cancelled: bool, loss: Real32) -> (action: TrainAction)
        requires
            old(self).wf(),
        ensures
            (*final(self), action) == old(self).following(cancelled, loss),
            final(self).wf(),
    {
        let t = *self;
        proof {
            if t.phase == Phase::AwaitLoss {
                lemma_updates_by_step(t, t.step as int);
            }
        }
        let (after, action) = match t.phase {
            Phase::Prepare => (
                TrainRun { phase: Phase::Announce, ..t },
                TrainAction::Report(TrainingProgress::Preparing),
            ),
            Phase::Announce => (
                TrainRun { phase: Phase::Load, ..t },
                TrainAction::Report(TrainingProgress::LoadingModel),
            ),
            Phase::Load => (TrainRun { phase: Phase::NextItem, ..t }, TrainAction::LoadModel),
            Phase::NextItem => {
                if t.cached < t.items && !cancelled {
                    (
                        TrainRun { phase: Phase::Cache, ..t },
                        TrainAction::Report(
                            TrainingProgress::Caching { current: t.cached + 1, total: t.items },
                        ),
                    )
                } else if t.cached > 0 {
                    (TrainRun { phase: Phase::NextStep, ..t }, TrainAction::BuildAdapter)
                } else if cancelled {
                    (TrainRun { phase: Phase::Ended, ..t }, TrainAction::Canceled)
                } else {
                    (TrainRun { phase: Phase::Ended, ..t }, TrainAction::NoUsableItems)
                }
            },
            Phase::Cache => (
                TrainRun { phase: Phase::NextItem, cached: t.cached + 1, ..t },
                TrainAction::CacheItem(t.cached as usize),
            ),
            Phase::NextStep => t.enter_step(cancelled),
            Phase::AwaitLoss => {
                let s: u32 = t.step as u32;
                if s % t.accum == 0 || s == t.steps {
                    (
                        TrainRun {
                            phase: Phase::ReportStep,
                            updates: t.updates + 1,
                            pending: 0,
                            last_loss: loss,
                            steps_run: s,
                            ..t
                        },
                        TrainAction::Update {
                            index: t.updates,
                            micro_steps: t.pending + 1,
                            divisor: t.accum,
                        },
                    )
                } else {
                    TrainRun { last_loss: loss, steps_run: s, pending: t.pending + 1, ..t }.report_step()
                }
            },
            Phase::ReportStep => t.report_step(),
            Phase::StepReported => {
                let s: u32 = t.step as u32;
                if t.save_every > 0 && s % t.save_every == 0 && s != t.steps {
                    (
                        TrainRun { phase: Phase::CheckpointSaved, ..t },
                        TrainAction::SaveCheckpoint { step: s },
                    )
                } else {
                    TrainRun { step: t.step + 1, ..t }.enter_step(cancelled)
                }
            },
            Phase::CheckpointSaved => (
                TrainRun { phase: Phase::CheckpointReported, ..t },
                TrainAction::Report(TrainingProgress::Checkpoint { step: t.step as u32 }),
            ),
            Phase::CheckpointReported => TrainRun { step: t.step + 1, ..t }.enter_step(cancelled),
            Phase::Save => (TrainRun { phase: Phase::Finish, ..t }, TrainAction::SaveAdapter),
            Phase::Finish => (
                TrainRun { phase: Phase::Ended, ..t },
                TrainAction::Done { steps: t.steps_run, final_loss: t.last_loss },
            ),
            Phase::Ended => (t, TrainAction::Idle),
        };
        *self = after;
        action
    }
}

/// A step adds one update where one is due, and one pending micro-step otherwise.
proof fn lemma_updates_by_step(t: TrainRun, s: int)
    requires
        t.accum >= 1,
        1 <= s <= t.steps,
    ensures
        t.updates_by(s) == t.updates_by(s - 1) + if t.update_due(s) {
            1int
        } else {
            0int
        },
        0 <= t.updates_by(s - 1) < s,
        0 <= (s - 1) % (t.accum as int) && (s - 1) % (t.accum as int) < s,
        !t.update_due(s) ==> s % t.accum as int == (s - 1) % t.accum as int + 1,
{
    let a = t.accum as int;
    let q = (s - 1) / a;
    let r = (s - 1) % a;
    lemma_fundamental_div_mod(s - 1, a);
    assert(0 <= q <= s - 1 && 0 <= r <= s - 1) by (nonlinear_arith)
        requires
            s - 1 == a * q + r,
            0 <= r < a,
            s >= 1,
            a >= 1,
    ;
    assert(a * q == q * a) by (nonlinear_arith);
    if r + 1 < a {
        lemma_fundamental_div_mod_converse(s, a, q, r + 1);
    } else {
        assert((q + 1) * a == q * a + a) by (nonlinear_arith);
        lemma_fundamental_div_mod_converse(s, a, q + 1, 0);
    }
}

/// The whole run calls for one update for each accumulation window of its steps, rounded up.
pub proof fn law_updates_cover_every_step(t: TrainRun)
    requires
        t.wf(),
        t.steps_run == t.steps,
    ensures
        t.pending == 0,
        t.updates == (t.steps + t.accum - 1) / t.accum as int,
{
    let a = t.accum as int;
    let s = t.steps as int;
    let q = s / a;
    let r = s % a;
    lemma_fundamental_div_mod(s, a);
    assert(a * q == q * a) by (nonlinear_arith);
    if r == 0 {
        lemma_fundamental_div_mod_converse(s + a - 1, a, q, a - 1);
    } else {
        assert((q + 1) * a == q * a + a) by (nonlinear_arith);
        lemma_fundamental_div_mod_converse(s + a - 1, a, q + 1, r - 1);
    }
}

/// An update is asked for only after something has accumulated, and never for more steps than its
/// divisor averages over.
pub proof fn law_update_follows_accumulation(t: TrainRun, cancelled: bool, loss: Real32)
    requires
        t.wf(),
    ensures
        t.following(cancelled, loss).1 matches TrainAction::Update { index, micro_steps, divisor }
            ==> 1 <= micro_steps <= divisor && index == t.updates,
{
    if t.phase == Phase::AwaitLoss {
        lemma_updates_by_step(t, t.step as int);
    }
}

/// An adapter is saved only after at least one step ran; a run that is cancelled before that ends
/// as cancelled, with nothing saved.
pub proof fn law_no_adapter_without_a_step(t: TrainRun, cancelled: bool, loss: Real32)
    requires
        t.wf(),
    ensures
        t.following(cancelled, loss).1 == TrainAction::SaveAdapter ==> t.steps_run >= 1,
        t.phase == Phase::NextStep && t.steps_run == 0 && cancelled ==> t.following(
            cancelled,
            loss,
        ) == (TrainRun { phase: Phase::Ended, ..t }, TrainAction::Canceled),
{
}

/// Once the flag is set no further micro-step or dataset item is asked for.
pub proof fn law_cancel_stops_work(t: TrainRun, loss: Real32)
    requires
        t.wf(),
    ensures
        !(t.following(true, loss).1 is Step),
        t.phase == Phase::NextItem ==> !(t.following(true, loss).1 is Report),
{
}

/// Every action brings the run closer to its end, so it takes at most `left` more of them.
pub proof fn law_run_ends(t: TrainRun, cancelled: bool, loss: Real32)
    requires
        t.wf(),
        t.phase != Phase::Ended,
    ensures
        0 <= t.following(cancelled, loss).0.left() < t.left(),
{
}

/// The inputs of a step depend on the seed, the step and the number of cached samples alone, so two
/// runs of one seed take the same steps.
pub proof fn law_steps_are_reproducible(a: TrainRun, b: TrainRun, s: int)
    requires
        a.seed == b.seed,
        a.cached == b.cached,
    ensures
        a.micro_step(s) == b.micro_step(s),
{
}

/// The run after `k` actions, each given its cancel flag and loss.
pub open spec fn after(t: TrainRun, given: Seq<(bool, Real32)>, k: int) -> TrainRun
    decreases k,
{
    if k <= 0 {
        t
    } else {
        after(t, given, k - 1).following(given[k - 1].0, given[k - 1].1).0
    }
}

/// The action that follows `k` others.
pub open spec fn action(t: TrainRun, given: Seq<(bool, Real32)>, k: int) -> TrainAction {
    after(t, given, k).following(given[k].0, given[k].1).1
}

/// The steps that the first `k` actions report as trained.
pub open spec fn trained(t: TrainRun, given: Seq<(bool, Real32)>, k: int) -> Seq<u32>
    decreases k,
{
    if k <= 0 {
        Seq::empty()
    } else {
        match action(t, given, k - 1) {
            TrainAction::Report(TrainingProgress::Training { step, .. }) => trained(
                t,
                given,
                k - 1,
            ).push(step),
            _ => trained(t, given, k - 1),
        }
    }
}

/// The steps that the first `k` actions report a checkpoint of.
pub open spec fn checkpointed(t: TrainRun, given: Seq<(bool, Real32)>, k: int) -> Seq<u32>
    decreases k,
{
    if k <= 0 {
        Seq::empty()
    } else {
        match action(t, given, k - 1) {
            TrainAction::Report(TrainingProgress::Checkpoint { step }) => checkpointed(
                t,
                given,
                k - 1,
            ).push(step),
            _ => checkpointed(t, given, k - 1),
        }
    }
}

/// The steps up to `n` that a checkpoint is due after.
pub open spec fn due_by(t: TrainRun, n: int) -> Seq<u32>
    decreases n,
{
    if n <= 0 {
        Seq::empty()
    } else if t.checkpoint_due(n) {
        due_by(t, n - 1).push(n as u32)
    } else {
        due_by(t, n - 1)
    }
}

/// The last step that a run has reported.
pub open spec fn reported(t: TrainRun) -> int {
    if t.phase == Phase::ReportStep {
        t.steps_run - 1
    } else {
        t.steps_run as int
    }
}

/// The last step whose checkpoint, where one is due, a run has reported.
pub open spec fn settled(t: TrainRun) -> int {
    match t.phase {
        Phase::ReportStep | Phase::StepReported | Phase::CheckpointSaved => t.steps_run - 1,
        _ => t.steps_run as int,
    }
}

proof fn lemma_following_is_wf(t: TrainRun, cancelled: bool, loss: Real32)
    requires
        t.wf(),
    ensures
        t.following(cancelled, loss).0.wf(),
{
    if t.phase == Phase::AwaitLoss {
        lemma_updates_by_step(t, t.step as int);
    }
}

/// A run reports its steps from one on without a gap, and of those exactly the checkpoints that are
/// due.
proof fn lemma_reports(cfg: &TrainingConfig, items: u32, given: Seq<(bool, Real32)>, k: int)
    requires
        0 <= k <= given.len(),
    ensures
        ({
            let t = TrainRun::fresh(cfg, items);
            let r = after(t, given, k);
            &&& r.wf()
            &&& r.steps == t.steps && r.save_every == t.save_every
            &&& trained(t, given, k) == Seq::new(reported(r) as nat, |i: int| (i + 1) as u32)
            &&& checkpointed(t, given, k) == due_by(t, settled(r))
        }),
    decreases k,
{
    let t = TrainRun::fresh(cfg, items);
    if k == 0 {
        assert(t.wf()) by {
            vstd::arithmetic::div_mod::lemma_small_mod(0, t.accum as nat);
        }
        assert(trained(t, given, 0) =~= Seq::new(reported(t) as nat, |i: int| (i + 1) as u32));
    } else {
        lemma_reports(cfg, items, given, k - 1);
        let b = after(t, given, k - 1);
        let r = after(t, given, k);
        lemma_following_is_wf(b, given[k - 1].0, given[k - 1].1);
        assert(trained(t, given, k) =~= Seq::new(reported(r) as nat, |i: int| (i + 1) as u32));
        assert(forall|s: int| b.checkpoint_due(s) == t.checkpoint_due(s));
    }
}

/// A run that is done has reported every step from one to the number that it says it ran, in order,
/// and a checkpoint of exactly those that one was due after. It ran at least one step, and fewer than
/// it was asked for only where it was cancelled.
pub proof fn law_reports_are_complete(
    cfg: &TrainingConfig,
    items: u32,
    given: Seq<(bool, Real32)>,
    k: int,
)
    requires
        0 <= k < given.len(),
    ensures
        ({
            let t = TrainRun::fresh(cfg, items);
            action(t, given, k) matches TrainAction::Done { steps, .. } ==> {
                &&& 1 <= steps <= cfg.steps
                &&& trained(t, given, k) == Seq::new(steps as nat, |i: int| (i + 1) as u32)
                &&& checkpointed(t, given, k) == due_by(t, steps as int)
                &&& steps < cfg.steps ==> exists|c: int| 0 <= c < k && (#[trigger] given[c]).0
            }
        }),
{
    lemma_reports(cfg, items, given, k);
    lemma_early_end(cfg, items, given, k);
}

proof fn lemma_early_end(cfg: &TrainingConfig, items: u32, given: Seq<(bool, Real32)>, k: int)
    requires
        0 <= k <= given.len(),
    ensures
        ({
            let r = after(TrainRun::fresh(cfg, items), given, k);
            (r.phase == Phase::Save || r.phase == Phase::Finish) && r.steps_run < r.steps
                ==> exists|c: int| 0 <= c < k && (#[trigger] given[c]).0
        }),
    decreases k,
{
    if k > 0 {
        lemma_early_end(cfg, items, given, k - 1);
        lemma_reports(cfg, items, given, k - 1);
        let r = after(TrainRun::fresh(cfg, items), given, k);
        if (r.phase == Phase::Save || r.phase == Phase::Finish) && r.steps_run < r.steps {
            let b = after(TrainRun::fresh(cfg, items), given, k - 1);
            if b.phase != Phase::Save && b.phase != Phase::Finish {
                assert(given[k - 1].0);
            }
        }
    }
}

/// What a run leaves behind.
#[derive(Clone, Debug)]
pub struct TrainingOutput {
    /// Where the adapter was saved.
    pub adapter_path: SavePath,
    pub steps: u32,
    pub final_loss: Real32,
}

/// What a run of `req` leaves behind once its last action says that it is done.
pub fn training_output(req: &TrainingRequest, last: TrainAction) -> (r: Option<TrainingOutput>)
    ensures
        match last {
            TrainAction::Done { steps, final_loss } => {
                &&& r matches Some(out)
                &&& out.adapter_path.dir@ == req.output_dir@ && out.adapter_path.file@
                    == req.file_name@
                &&& out.steps == steps && out.final_loss == final_loss
            },
            _ => r is None,
        },
{
    match last {
        TrainAction::Done { steps, final_loss } => Some(
            TrainingOutput { adapter_path: adapter_path(req), steps, final_loss },
        ),
        _ => None,
    }
}

/// The cached samples are trained on in turn: the first step takes the first, and every later step the
/// one after the last step's, from the start again behind the last sample.
pub proof fn law_samples_are_taken_in_turn(t: TrainRun, s: int)
    requires
        t.cached > 0,
        1 <= s < u32::MAX,
    ensures
        t.micro_step(1).sample == 0,
        t.micro_step(s).sample < t.cached,
        t.micro_step(s + 1).sample == if t.micro_step(s).sample + 1 == t.cached {
            0
        } else {
            t.micro_step(s).sample + 1
        },
{
    let c = t.cached as int;
    vstd::arithmetic::div_mod::lemma_small_mod(0, c as nat);
    lemma_fundamental_div_mod(s - 1, c);
    let (q, r) = ((s - 1) / c, (s - 1) % c);
    assert(c * q == q * c) by (nonlinear_arith);
    if r + 1 < c {
        lemma_fundamental_div_mod_converse(s, c, q, r + 1);
    } else {
        assert((q + 1) * c == q * c + c) by (nonlinear_arith);
        lemma_fundamental_div_mod_converse(s, c, q + 1, 0);
    }
}

/// Any stretch of as many steps as there are cached samples trains on every sample exactly once.
pub proof fn law_every_sample_has_its_turn(t: TrainRun, first: int, sample: int)
    requires
        t.cached > 0,
        1 <= first,
        first + t.cached <= u32::MAX,
        0 <= sample < t.cached,
    ensures
        exists|s: int|
            first <= s < first + t.cached && #[trigger] t.micro_step(s).sample == sample,
        forall|a: int, b: int|
            first <= a < b < first + t.cached ==> #[trigger] t.micro_step(a).sample
                != #[trigger] t.micro_step(b).sample,
{
    let c = t.cached as int;
    let f = first - 1;
    lemma_fundamental_div_mod(f, c);
    let (q, r) = (f / c, f % c);
    assert(c * q == q * c) by (nonlinear_arith);
    assert((q + 1) * c == q * c + c) by (nonlinear_arith);
    if sample >= r {
        let s = q * c + sample + 1;
        lemma_fundamental_div_mod_converse(s - 1, c, q, sample);
        assert(t.micro_step(s).sample == sample);
    } else {
        let s = (q + 1) * c + sample + 1;
        lemma_fundamental_div_mod_converse(s - 1, c, q + 1, sample);
        assert(t.micro_step(s).sample == sample);
    }
    assert forall|a: int, b: int|
        first <= a < b < first + t.cached implies #[trigger] t.micro_step(a).sample
        != #[trigger] t.micro_step(b).sample by {
        lemma_fundamental_div_mod(a - 1, c);
        lemma_fundamental_div_mod(b - 1, c);
        let (qa, qb) = ((a - 1) / c, (b - 1) / c);
        if (a - 1) % c == (b - 1) % c {
            assert(0 < c * (qb - qa) < c) by (nonlinear_arith)
                requires
                    b - a == c * qb - c * qa,
                    0 < b - a < c,
            ;
            assert(false) by (nonlinear_arith)
                requires
                    0 < c * (qb - qa) < c,
                    c > 0,
            ;
        }
    }
}

/// A step is told its own number. Its noise comes from an odd seed that moves on by two with every step
/// and with every unit of the run's seed, so that no two steps of a run share it.
pub proof fn law_steps_have_their_own_noise(t: TrainRun, u: TrainRun, s: int)
    requires
        1 <= s < u32::MAX,
        u.seed == t.seed.wrapping_add(1),
    ensures
        t.micro_step(s).step == s,
        t.micro_step(s).noise_seed % 2 == 1,
        t.micro_step(s + 1).noise_seed == t.micro_step(s).noise_seed.wrapping_add(2),
        u.micro_step(s).noise_seed == t.micro_step(s + 1).noise_seed,
        t.seed == 0 ==> t.micro_step(s).noise_seed == 2 * s + 1,
{
}

/// The timestep of a step is drawn with a seed of its own: the step's number further on than a multiple
/// of the run's seed, and so the number itself where the seed is zero. It is drawn below the number of
/// training timesteps.
pub proof fn law_steps_have_their_own_timestep(t: TrainRun, of_seed: u64, s: int)
    requires
        1 <= s < u32::MAX,
        of_seed == t.seed.wrapping_mul(0x9E37_79B9),
    ensures
        t.micro_step(s).timestep == first_draw(of_seed.wrapping_add(s as u64), 1000),
        t.seed == 0 ==> t.micro_step(s).timestep == first_draw(s as u64, 1000),
{
    if t.seed == 0 {
        assert(0u64.wrapping_mul(0x9E37_79B9) == 0);
    }
}

/// A run is set up as its configuration says: as many steps, a checkpoint every so many, updates over
/// windows of at least one step, and the configuration's seed.
pub proof fn law_run_follows_its_configuration(cfg: &TrainingConfig, items: u32)
    ensures
        ({
            let t = TrainRun::fresh(cfg, items);
            &&& t.steps == cfg.steps && t.items == items && t.seed == cfg.seed
            &&& t.save_every == cfg.save_every
            &&& cfg.gradient_accumulation > 0 ==> t.accum == cfg.gradient_accumulation
            &&& cfg.gradient_accumulation == 0 ==> t.accum == 1
            &&& t.cached == 0 && t.steps_run == 0 && t.updates == 0 && t.pending == 0
        }),
{
}

/// An action never changes what the run is for, and only performed work moves its counters: an item
/// that was cached, a step whose loss came in, and an update. The last loss is the one that came in.
pub proof fn law_counters_follow_the_work(t: TrainRun, cancelled: bool, loss: Real32)
    requires
        t.wf(),
    ensures
        ({
            let (u, a) = t.following(cancelled, loss);
            &&& u.items == t.items && u.steps == t.steps && u.accum == t.accum
            &&& u.save_every == t.save_every && u.seed == t.seed
            &&& u.cached == t.cached + if a is CacheItem {
                1int
            } else {
                0int
            }
            &&& u.updates == t.updates + if a is Update {
                1int
            } else {
                0int
            }
            &&& u.steps_run == t.steps_run + if t.phase == Phase::AwaitLoss {
                1int
            } else {
                0int
            }
            &&& u.last_loss == if t.phase == Phase::AwaitLoss {
                loss
            } else {
                t.last_loss
            }
            &&& a is Step <==> u.phase == Phase::AwaitLoss
        }),
{
}

/// What the actions carry: items in the order of the dataset, steps one after the other, reports with
/// the run's totals and the loss of the step, and an end with the steps that were run.
pub proof fn law_actions_say_what_is_done(t: TrainRun, cancelled: bool, loss: Real32)
    requires
        t.wf(),
    ensures
        match t.following(cancelled, loss).1 {
            TrainAction::CacheItem(i) => i == t.cached,
            TrainAction::Step(m) => m.step == t.steps_run + 1 && m.step <= t.steps && !cancelled,
            TrainAction::Report(TrainingProgress::Caching { current, total }) => current
                == t.cached + 1 && total == t.items,
            TrainAction::Report(TrainingProgress::Training { step, total, loss: l }) => {
                let u = t.following(cancelled, loss).0;
                step == u.steps_run && total == t.steps && l == u.last_loss
            },
            TrainAction::Report(TrainingProgress::Checkpoint { step }) => step == t.steps_run,
            TrainAction::SaveCheckpoint { step } => step == t.steps_run && t.checkpoint_due(step as int),
            TrainAction::Done { steps, final_loss } => steps == t.steps_run && final_loss
                == t.last_loss,
            _ => true,
        },
{
}

/// An update averages over the whole window, and over fewer micro-steps only at the end of the run; it
/// has the number of the updates before it.
pub proof fn law_updates_average_over_the_window(t: TrainRun, cancelled: bool, loss: Real32)
    requires
        t.wf(),
        t.following(cancelled, loss).1 is Update,
    ensures
        t.following(cancelled, loss).1 matches TrainAction::Update { index, micro_steps, divisor } && {
            &&& index == t.updates && divisor == t.accum && micro_steps == t.pending + 1
            &&& t.steps_run + 1 < t.steps ==> micro_steps == divisor
        },
{
    let (s, a) = (t.step as int, t.accum as int);
    if s != t.steps {
        lemma_fundamental_div_mod(s, a);
        let q = s / a;
        assert(a * q == q * a) by (nonlinear_arith);
        assert((q - 1) * a == q * a - a) by (nonlinear_arith);
        lemma_fundamental_div_mod_converse(s - 1, a, q - 1, a - 1);
    }
}

/// A checkpoint is due after every `save_every`th step but the last, and after no other.
pub proof fn law_checkpoints_are_evenly_spaced(t: TrainRun, m: int, s: int)
    requires
        1 <= s <= t.steps,
    ensures
        t.save_every == 0 ==> !t.checkpoint_due(s),
        t.save_every > 0 && s < t.steps && s == m * t.save_every ==> t.checkpoint_due(s),
        t.checkpoint_due(s) ==> s < t.steps && s >= t.save_every,
        t.checkpoint_due(s) && 0 < m < t.save_every ==> !t.checkpoint_due(s + m),
{
    let e = t.save_every as int;
    if e > 0 {
        if s == m * e {
            lemma_fundamental_div_mod_converse(s, e, m, 0);
        }
        if t.checkpoint_due(s) {
            lemma_fundamental_div_mod(s, e);
            let q = s / e;
            assert(e * q == q * e) by (nonlinear_arith);
            assert(s >= e) by (nonlinear_arith)
                requires
                    s == e * q,
                    s >= 1,
                    e > 0,
            ;
            if 0 < m < e {
                lemma_fundamental_div_mod_converse(s + m, e, q, m);
            }
        }
    }
}

/// An update is due after every `accum`th step and after the last, and after no other.
pub proof fn law_updates_are_evenly_spaced(t: TrainRun, m: int, s: int)
    requires
        t.accum >= 1,
        1 <= s <= t.steps,
    ensures
        t.update_due(t.steps as int),
        s == m * t.accum ==> t.update_due(s),
        t.update_due(s) && s != t.steps && 0 < m < t.accum && s + m < t.steps ==> !t.update_due(
            s + m,
        ),
        s < t.accum && s < t.steps ==> !t.update_due(s),
{
    let e = t.accum as int;
    if s == m * e {
        lemma_fundamental_div_mod_converse(s, e, m, 0);
    }
    if t.update_due(s) && s != t.steps && 0 < m < e {
        lemma_fundamental_div_mod(s, e);
        assert(e * (s / e) == (s / e) * e) by (nonlinear_arith);
        lemma_fundamental_div_mod_converse(s + m, e, s / e, m);
    }
    if s < e {
        vstd::arithmetic::div_mod::lemma_small_mod(s as nat, e as nat);
    }
}

/// The stages of a run are entered by what they stand on: items are cached once the encoders are
/// loaded, steps are run once the adapter is built, and the run is done once the adapter is saved. It
/// ends in no other way than done, cancelled before its first step, or without a usable item.
pub proof fn law_stages_stand_on_their_work(t: TrainRun, cancelled: bool, loss: Real32)
    requires
        t.wf(),
        t.phase != Phase::Ended,
    ensures
        ({
            let (u, a) = t.following(cancelled, loss);
            &&& u.phase == Phase::NextItem ==> a == TrainAction::LoadModel || a is CacheItem
            &&& u.phase == Phase::NextStep ==> a == TrainAction::BuildAdapter
            &&& u.phase == Phase::Finish ==> a == TrainAction::SaveAdapter
            &&& a is Done ==> t.phase == Phase::Finish && u.phase == Phase::Ended
            &&& u.phase == Phase::Ended ==> a is Done || a == TrainAction::Canceled || a
                == TrainAction::NoUsableItems
            &&& a == TrainAction::Canceled ==> t.steps_run == 0 && (cancelled || t.steps == 0)
            &&& a == TrainAction::NoUsableItems ==> t.items == 0 && !cancelled
            &&& a == TrainAction::BuildAdapter ==> t.cached == t.items || cancelled
        }),
{
}

/// Everything that is due is asked for at once: an update after the step that completes its window, a
/// report after every step, and a checkpoint and its report after the steps that have one.
pub proof fn law_due_work_is_asked_for(t: TrainRun, cancelled: bool, loss: Real32)
    requires
        t.wf(),
    ensures
        ({
            let (u, a) = t.following(cancelled, loss);
            let trained = a matches TrainAction::Report(TrainingProgress::Training { .. });
            &&& t.phase == Phase::AwaitLoss ==> if t.update_due(t.step as int) {
                a is Update && u.phase == Phase::ReportStep
            } else {
                trained
            }
            &&& t.phase == Phase::ReportStep ==> trained
            &&& trained ==> u.phase == Phase::StepReported
            &&& t.phase == Phase::StepReported ==> (a is SaveCheckpoint <==> t.checkpoint_due(
                t.steps_run as int,
            ))
            &&& a is SaveCheckpoint ==> {
                let next = u.following(cancelled, loss).1;
                next matches TrainAction::Report(TrainingProgress::Checkpoint { .. })
            }
        }),
{
}

} // verus!

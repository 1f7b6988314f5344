//! The Euler-ancestral schedule: which table entries a time falls between, which times a run steps
//! through, and which steps add noise.
use crate::error::Error;
use vstd::prelude::*;
use vstd::string::*;

verus! {

/// The training steps of SDXL.
pub const SDXL_TRAIN_STEPS: usize = 1000;

/// A sampler over a noise table with one entry for each training step, and a leading zero.
#[derive(Clone, Copy, Debug, PartialEq, Eq, Structural)]
pub struct EulerAncestralSampler {
    pub train_steps: usize,
    /// Each step adds noise; a plain Euler step adds none.
    pub ancestral: bool,
}

/// The steps of a run of `n`, each by the positions of its two times.
pub open spec fn schedule(n: nat) -> Seq<(usize, usize)> {
    Seq::new(n, |i: int| (i as usize, (i + 1) as usize))
}

impl EulerAncestralSampler {
    /// There is at least one training step, and the table fits.
    pub open spec fn wf(self) -> bool {
        1 <= self.train_steps < usize::MAX
    }

    /// The SDXL sampler: ancestral, over 1000 training steps.
    pub fn sdxl() -> (r: Self)
        ensures
            r.wf() && r.train_steps == SDXL_TRAIN_STEPS && r.ancestral,
    {
        EulerAncestralSampler { train_steps: SDXL_TRAIN_STEPS, ancestral: true }
    }

    /// A sampler over `train_steps` training steps. None at all is refused.
    pub fn new(train_steps: usize, ancestral: bool) -> (r: Result<Self, Error>)
        requires
            train_steps < usize::MAX,
        ensures
            match r {
                Ok(s) => train_steps > 0 && s.wf() && s == (EulerAncestralSampler {
                    train_steps,
                    ancestral,
                }),
                Err(e) => train_steps == 0 && e.says("euler sampler: train_steps must be >= 1"@),
            },
    {
        if train_steps == 0 {
            return Err(
                Error::Msg(String::from_str("euler sampler: train_steps must be >= 1")),
            );
        }
        Ok(EulerAncestralSampler { train_steps, ancestral })
    }

    /// Whether each step adds noise.
    pub fn is_ancestral(&self) -> (r: bool)
        ensures
            r == self.ancestral,
    {
        self.ancestral
    }

    /// The entries of the noise table.
    pub fn table_len(&self) -> (r: usize)
        requires
            self.wf(),
        ensures
            r == self.train_steps + 1,
    {
        self.train_steps + 1
    }

    /// The largest time: the last table entry.
    pub fn max_time(&self) -> (r: usize)
        requires
            self.wf(),
        ensures
            r == self.train_steps,
    {
        self.table_len() - 1
    }

    /// The table entries between which a time is interpolated, from its whole part: the entry there
    /// and the next, both within the table.
    pub fn bracket(&self, whole: usize) -> (r: (usize, usize))
        requires
            self.wf(),
        ensures
            r.0 == if whole <= self.train_steps {
                whole
            } else {
                self.train_steps
            },
            r.1 == if r.0 < self.train_steps {
                (r.0 + 1) as usize
            } else {
                self.train_steps
            },
            r.0 <= r.1 <= self.train_steps && r.1 - r.0 <= 1,
            r.0 <= whole,
            whole < self.train_steps ==> r.0 == whole && r.1 == whole + 1,
            whole >= self.train_steps ==> r.0 == r.1,
    {
        let last: usize = self.max_time();
        let lo: usize = if whole <= last {
            whole
        } else {
            last
        };
        let hi: usize = if lo < last {
            lo + 1
        } else {
            last
        };
        (lo, hi)
    }

    /// The steps of a run, by the positions of their two times among the `num_steps + 1` that divide
    /// the way from the start down to zero evenly.
    pub fn timesteps(&self, num_steps: usize) -> (r: Vec<(usize, usize)>)
        requires
            num_steps < usize::MAX,
        ensures
            r@ == schedule(num_steps as nat),
    {
        let mut v: Vec<(usize, usize)> = Vec::new();
        let mut i: usize = 0;
        while i < num_steps
            invariant
                i <= num_steps,
                num_steps < usize::MAX,
                v@ == schedule(i as nat),
            decreases num_steps - i,
        {
            v.push((i, i + 1));
            proof {
                assert(v@ =~= schedule((i + 1) as nat));
            }
            i += 1;
        }
        v
    }

    /// Whether step `i` of `num_steps` adds noise: an ancestral one does unless it ends at zero.
    pub fn adds_noise(&self, i: usize, num_steps: usize) -> (r: bool)
        requires
            i < num_steps,
        ensures
            r == (self.ancestral && i + 1 < num_steps),
            !self.ancestral ==> !r,
            i == num_steps - 1 ==> !r,
            self.ancestral && i != num_steps - 1 ==> r,
    {
        self.ancestral && i < num_steps - 1
    }
}

/// The steps of a run start at the start, end at zero, and each begins where the last ended.
pub proof fn law_steps_chain(num_steps: usize, steps: Seq<(usize, usize)>, i: int)
    requires
        steps == schedule(num_steps as nat),
        num_steps < usize::MAX,
        0 <= i < num_steps,
    ensures
        steps.len() == num_steps,
        steps[0].0 == 0,
        steps[i].1 == steps[i].0 + 1,
        steps[num_steps - 1].1 == num_steps,
        i + 1 < num_steps ==> steps[i].1 == steps[i + 1].0,
        steps[i].0 < steps[i].1 <= num_steps,
{
}

} // verus!

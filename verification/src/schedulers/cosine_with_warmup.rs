//! Cosine rate with warmup: a ramp from zero to the base rate over the
//! warmup steps, then a cosine decay over the remaining horizon. The cosine
//! itself is a transcendental function that this core does not compute: the
//! schedule reduces a step index to either a finished warmup rate or the
//! exact cosine argument (in half-turns), and a second entry point turns a
//! cosine value back into a rate. The caller evaluates the cosine in
//! between.
//!
//! Note on scaling: the classical formulation returns the bare factor
//! `max(0, (1 + cos)/2)` after warmup, unscaled, which is inconsistent with
//! its own warmup branch. Here the factor is multiplied by the base rate, so
//! the curve is continuous at the end of the warmup.

use vstd::prelude::*;

use crate::Error;
use crate::fixed::SCALE;
use crate::fixed::fx_mul;
use crate::fixed::i64_fits;
use crate::fixed::mul_fx;
use crate::schedulers::lemma_scaled_frac_bounds;
use crate::schedulers::ramp_value;
use crate::schedulers::warmup_ramp;

verus! {

/// Where a step index falls on a cosine-with-warmup curve: a finished rate
/// during warmup, or the cosine argument in half-turns (fixed point;
/// `Cosine(a)` stands for the rate `base_lr * (1 + cos(pi * a)) / 2`).
#[derive(Clone, Copy, Debug, PartialEq, Eq, Structural)]
pub enum LrPhase {
    Ramp(i64),
    Cosine(i64),
}

/// Cosine decay schedule with a linear warmup.
pub struct CosineWithWarmup {
    warmup_steps: u64,
    max_steps: u64,
    num_cycles: i64,
    base_lr: i64,
}

impl CosineWithWarmup {
    /// The warmup length this schedule was built with.
    pub closed spec fn spec_warmup_steps(&self) -> u64 {
        self.warmup_steps
    }

    /// The horizon this schedule was built with.
    pub closed spec fn spec_max_steps(&self) -> u64 {
        self.max_steps
    }

    /// The number of cosine cycles (fixed point) this schedule was built
    /// with.
    pub closed spec fn spec_num_cycles(&self) -> i64 {
        self.num_cycles
    }

    /// The base rate this schedule was built with.
    pub closed spec fn spec_base_lr(&self) -> i64 {
        self.base_lr
    }

    /// The schedule's construction invariant.
    pub closed spec fn wf(&self) -> bool {
        &&& self.base_lr > 0
        &&& self.warmup_steps <= self.max_steps
        &&& self.max_steps > 0
    }

    /// Build the schedule; fails with a configuration error exactly when the
    /// warmup exceeds the horizon, the horizon is zero, or the base rate is
    /// not positive.
    pub fn try_new(warmup_steps: u64, max_steps: u64, num_cycles: i64, base_lr: i64) -> (r: Result<
        CosineWithWarmup,
        Error,
    >)
        ensures
            (warmup_steps <= max_steps && max_steps > 0 && base_lr > 0) ==> (r matches Ok(s)
                && s.wf() && s.spec_warmup_steps() == warmup_steps && s.spec_max_steps()
                == max_steps && s.spec_num_cycles() == num_cycles && s.spec_base_lr() == base_lr),
            (warmup_steps > max_steps || max_steps == 0 || base_lr <= 0) ==> r == Err::<
                CosineWithWarmup,
                Error,
            >(Error::Configuration),
    {
        if warmup_steps > max_steps {
            return Err(Error::Configuration);
        }
        if max_steps == 0 {
            return Err(Error::Configuration);
        }
        if base_lr <= 0 {
            return Err(Error::Configuration);
        }
        Ok(CosineWithWarmup { warmup_steps, max_steps, num_cycles, base_lr })
    }

    /// The phase of step `step_t`: beyond the horizon, a range error; within
    /// the warmup, the finished ramp rate; after it, the cosine argument
    /// `2 * num_cycles * progress` in half-turns, where `progress` is the
    /// decay phase's completed fraction. A numeric error where the argument
    /// leaves the fixed-point range.
    pub closed spec fn spec_phase(&self, step_t: u64) -> Result<LrPhase, Error> {
        if step_t > self.max_steps {
            Err(Error::Range)
        } else if step_t <= self.warmup_steps {
            Ok(
                LrPhase::Ramp(
                    warmup_ramp(
                        self.base_lr as int,
                        step_t as int,
                        self.warmup_steps as int,
                    ) as i64,
                ),
            )
        } else {
            let progress = ((SCALE as int) * ((step_t - self.warmup_steps) as int)) / ((
            self.max_steps - self.warmup_steps) as int);
            let nc2 = self.num_cycles as int * 2;
            let angle = fx_mul(nc2, progress);
            if i64_fits(nc2) && i64_fits(angle) {
                Ok(LrPhase::Cosine(angle as i64))
            } else {
                Err(Error::Numeric)
            }
        }
    }

    /// Reduce a step index to its phase.
    pub fn lr_phase(&self, step_t: u64) -> (r: Result<LrPhase, Error>)
        requires
            self.wf(),
        ensures
            r == self.spec_phase(step_t),
    {
        if step_t > self.max_steps {
            return Err(Error::Range);
        }
        if step_t <= self.warmup_steps {
            return Ok(LrPhase::Ramp(ramp_value(self.base_lr, step_t, self.warmup_steps)));
        }
        proof {
            assert((SCALE as int) * ((step_t - self.warmup_steps) as int) < 0x8000000000000000
                * 0x10000000000000000) by (nonlinear_arith)
                requires
                    0 <= (step_t - self.warmup_steps) as int,
                    ((step_t - self.warmup_steps) as int) < 0x10000000000000000,
                    0 < SCALE as int,
                    (SCALE as int) < 0x8000000000000000,
            ;
            lemma_scaled_frac_bounds(
                SCALE as int,
                (step_t - self.warmup_steps) as int,
                (self.max_steps - self.warmup_steps) as int,
            );
        }
        let progress: i64 = (((SCALE as u128) * ((step_t - self.warmup_steps) as u128)) / ((
        self.max_steps - self.warmup_steps) as u128)) as i64;
        let nc2 = match self.num_cycles.checked_mul(2) {
            Some(x) => x,
            None => {
                return Err(Error::Numeric);
            },
        };
        let angle = match mul_fx(nc2, progress) {
            Some(x) => x,
            None => {
                return Err(Error::Numeric);
            },
        };
        Ok(LrPhase::Cosine(angle))
    }

    /// The rate a cosine value yields: `base_lr * (1 + c) / 2`, where `c` is
    /// the cosine of the phase's argument, in fixed point. With `c` in
    /// `[-1, 1]` the factor `(1 + c) / 2` is never negative, so no explicit
    /// floor at zero is needed.
    pub closed spec fn spec_lr_from_cos(&self, c: int) -> int {
        fx_mul(self.base_lr as int, ((SCALE as int) + c) / 2)
    }

    /// Turn a cosine value (fixed point, within `[-1, 1]`) into the rate for
    /// the step whose phase produced it.
    pub fn lr_from_cos(&self, c: i64) -> (r: i64)
        requires
            self.wf(),
            -SCALE <= c <= SCALE,
        ensures
            r as int == self.spec_lr_from_cos(c as int),
            0 <= r <= self.spec_base_lr(),
    {
        let half: i64 = (((SCALE + c) as u64) / 2) as i64;
        proof {
            assert(half as int == ((SCALE as int) + c as int) / 2);
            lemma_scaled_frac_bounds(self.base_lr as int, half as int, SCALE as int);
            assert(fx_mul(self.base_lr as int, half as int) == (self.base_lr as int * (
            half as int)) / (SCALE as int));
        }
        match mul_fx(self.base_lr, half) {
            Some(v) => v,
            None => 0,
        }
    }
}

/// A positive warmup ramps from zero: the phase at step 0 is the finished
/// rate 0.
pub proof fn lemma_cosine_starts_at_zero(s: CosineWithWarmup)
    requires
        s.wf(),
        s.spec_warmup_steps() > 0,
    ensures
        s.spec_phase(0) == Ok::<LrPhase, Error>(LrPhase::Ramp(0)),
{
    assert(s.spec_base_lr() as int * 0 == 0) by (nonlinear_arith);
    vstd::arithmetic::div_mod::lemma_div_of0(s.spec_warmup_steps() as int);
}

} // verus!

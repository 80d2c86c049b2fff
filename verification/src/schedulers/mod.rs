//! Learning-rate schedules (stateless curves from step index to rate) and
//! the stateful scheduler that owns a step counter and, each tick, pushes
//! the computed rate into an attached optimizer.

use vstd::prelude::*;

use crate::Error;
use crate::optimizers::Optimizer;

pub use constant_with_warmup::ConstantWithWarmup;
pub use cosine_with_warmup::CosineWithWarmup;
pub use cosine_with_warmup::LrPhase;
pub use linear_with_warmup::LinearWithWarmup;

mod constant_with_warmup;
mod cosine_with_warmup;
mod linear_with_warmup;

verus! {

/// The linear warmup ramp every schedule shares: at step `t` of a warmup of
/// `w` steps, the fraction `t / w` of the base rate, truncated to a whole
/// number of fixed-point units; the full base rate from step `w` on.
pub open spec fn warmup_ramp(base: int, t: int, w: int) -> int {
    if t < w {
        (base * t) / w
    } else {
        base
    }
}

/// A scaled fraction `(b * x) / d` with `0 <= x <= d` stays within `[0, b]`.
pub proof fn lemma_scaled_frac_bounds(b: int, x: int, d: int)
    requires
        0 <= b,
        0 <= x <= d,
        0 < d,
    ensures
        0 <= (b * x) / d <= b,
{
    vstd::arithmetic::mul::lemma_mul_inequality(x, d, b);
    assert(b * x == x * b) by (nonlinear_arith);
    assert(b * d == d * b) by (nonlinear_arith);
    vstd::arithmetic::div_mod::lemma_div_is_ordered(b * x, b * d, d);
    vstd::arithmetic::div_mod::lemma_div_by_multiple(b, d);
    assert(b * x >= 0) by (nonlinear_arith)
        requires
            b >= 0,
            x >= 0,
    ;
    vstd::arithmetic::div_mod::lemma_div_pos_is_pos(b * x, d);
}

/// The warmup ramp, computed exactly.
pub fn ramp_value(base: i64, t: u64, w: u64) -> (r: i64)
    requires
        base > 0,
    ensures
        r as int == warmup_ramp(base as int, t as int, w as int),
        0 <= r <= base,
{
    if t >= w {
        return base;
    }
    proof {
        assert(base as int * (t as int) < 0x8000000000000000 * 0x10000000000000000)
            by (nonlinear_arith)
            requires
                0 <= base as int,
                (base as int) < 0x8000000000000000,
                0 <= t as int,
                (t as int) < 0x10000000000000000,
        ;
        lemma_scaled_frac_bounds(base as int, t as int, w as int);
    }
    let q: u128 = ((base as u128) * (t as u128)) / (w as u128);
    q as i64
}

/// The capability a schedule exposes: map a step index to a learning rate,
/// or to an error where the index lies beyond the schedule's horizon.
pub trait Schedule: Sized {
    /// The schedule's construction invariant.
    spec fn wf(&self) -> bool;

    /// The rate the schedule assigns to step `step_t`, or the error it
    /// reports there.
    spec fn spec_lr(&self, step_t: u64) -> Result<i64, Error>;

    /// Compute the rate for `step_t`.
    fn get_lr(&self, step_t: u64) -> (r: Result<i64, Error>)
        requires
            self.wf(),
        ensures
            r == self.spec_lr(step_t),
    ;
}

/// The stateful driver: owns one schedule and a step counter, and pushes
/// each newly computed rate into an attached optimizer.
pub struct Scheduler<S: Schedule> {
    schedule: S,
    /// Number of `step` calls taken (or the value set when resuming).
    pub step_t: u64,
}

impl<S: Schedule> Scheduler<S> {
    /// The schedule currently driving this scheduler.
    pub closed spec fn spec_schedule(&self) -> S {
        self.schedule
    }

    /// The counter's current value.
    pub closed spec fn spec_step_t(&self) -> u64 {
        self.step_t
    }

    /// The scheduler is consistent exactly when its schedule is.
    pub closed spec fn wf(&self) -> bool {
        self.schedule.wf()
    }

    /// A scheduler over `schedule` with its counter at zero.
    pub fn new(schedule: S) -> (s: Scheduler<S>)
        requires
            schedule.wf(),
        ensures
            s.wf(),
            s.spec_step_t() == 0,
            s.spec_schedule() == schedule,
    {
        Scheduler { schedule, step_t: 0 }
    }

    /// One scheduler tick: increment the counter, evaluate the schedule at
    /// the new counter value, and write the result into the optimizer's
    /// learning rate. Fails exactly where the schedule query fails; the
    /// optimizer is then left untouched (the counter still advances).
    pub fn step<O: Optimizer>(&mut self, opt: &mut O) -> (r: Result<(), Error>)
        requires
            old(self).wf(),
            old(opt).wf(),
            old(self).spec_step_t() < u64::MAX,
        ensures
            final(self).wf(),
            final(self).spec_step_t() == old(self).spec_step_t() + 1,
            final(self).spec_schedule() == old(self).spec_schedule(),
            final(opt).wf(),
            match old(self).spec_schedule().spec_lr((old(self).spec_step_t() + 1) as u64) {
                Ok(v) => r == Ok::<(), Error>(()) && final(opt).lr_spec() == v && old(
                    opt,
                ).same_but_lr(final(opt)),
                Err(e) => r == Err::<(), Error>(e) && *final(opt) == *old(opt),
            },
    {
        self.step_t = self.step_t + 1;
        let lr = match self.schedule.get_lr(self.step_t) {
            Ok(v) => v,
            Err(e) => {
                return Err(e);
            },
        };
        opt.set_learning_rate(lr);
        Ok(())
    }

    /// Overwrite the counter directly (for resuming from a checkpoint).
    pub fn update_step(&mut self, n: u64)
        requires
            old(self).wf(),
        ensures
            final(self).wf(),
            final(self).spec_step_t() == n,
            final(self).spec_schedule() == old(self).spec_schedule(),
    {
        self.step_t = n;
    }

    /// Swap the active schedule without resetting the counter.
    pub fn update_schedule(&mut self, schedule: S)
        requires
            schedule.wf(),
        ensures
            final(self).wf(),
            final(self).spec_step_t() == old(self).spec_step_t(),
            final(self).spec_schedule() == schedule,
    {
        self.schedule = schedule;
    }

    /// Read the counter.
    pub fn step_count(&self) -> (n: u64)
        ensures
            n == self.spec_step_t(),
    {
        self.step_t
    }

    /// Inspect the underlying schedule.
    pub fn schedule(&self) -> (s: &S)
        ensures
            *s == self.spec_schedule(),
    {
        &self.schedule
    }
}

} // verus!

//! Constant rate with linear warmup: a ramp from zero to the base rate over
//! the warmup steps, then the base rate forever. Queries never fail.

use vstd::prelude::*;

use crate::Error;
use crate::schedulers::Schedule;
use crate::schedulers::lemma_scaled_frac_bounds;
use crate::schedulers::ramp_value;
use crate::schedulers::warmup_ramp;

verus! {

/// Constant schedule with a linear warmup.
pub struct ConstantWithWarmup {
    warmup_steps: u64,
    base_lr: i64,
}

impl ConstantWithWarmup {
    /// The warmup length this schedule was built with.
    pub closed spec fn spec_warmup_steps(&self) -> u64 {
        self.warmup_steps
    }

    /// The base rate this schedule was built with.
    pub closed spec fn spec_base_lr(&self) -> i64 {
        self.base_lr
    }

    /// Build the schedule; fails with a configuration error exactly when the
    /// base rate is not positive.
    pub fn try_new(warmup_steps: u64, base_lr: i64) -> (r: Result<ConstantWithWarmup, Error>)
        ensures
            base_lr > 0 ==> (r matches Ok(s) && s.wf() && s.spec_warmup_steps() == warmup_steps
                && s.spec_base_lr() == base_lr),
            base_lr <= 0 ==> r == Err::<ConstantWithWarmup, Error>(Error::Configuration),
    {
        if base_lr <= 0 {
            return Err(Error::Configuration);
        }
        Ok(ConstantWithWarmup { warmup_steps, base_lr })
    }
}

impl Schedule for ConstantWithWarmup {
    closed spec fn wf(&self) -> bool {
        self.base_lr > 0
    }

    closed spec fn spec_lr(&self, step_t: u64) -> Result<i64, Error> {
        Ok(warmup_ramp(self.base_lr as int, step_t as int, self.warmup_steps as int) as i64)
    }

    fn get_lr(&self, step_t: u64) -> (r: Result<i64, Error>) {
        Ok(ramp_value(self.base_lr, step_t, self.warmup_steps))
    }
}

/// A positive warmup ramps from zero: the rate at step 0 is exactly 0.
pub proof fn lemma_constant_starts_at_zero(s: ConstantWithWarmup)
    requires
        s.wf(),
        s.spec_warmup_steps() > 0,
    ensures
        s.spec_lr(0) == Ok::<i64, Error>(0),
{
    assert(s.spec_base_lr() as int * 0 == 0) by (nonlinear_arith);
    assert(0int / (s.spec_warmup_steps() as int) == 0) by {
        vstd::arithmetic::div_mod::lemma_div_of0(s.spec_warmup_steps() as int);
    }
}

/// At the end of the warmup and at every later step, the rate is exactly
/// the base rate.
pub proof fn lemma_constant_after_warmup(s: ConstantWithWarmup, t: u64)
    requires
        s.wf(),
        t >= s.spec_warmup_steps(),
    ensures
        s.spec_lr(t) == Ok::<i64, Error>(s.spec_base_lr()),
{
}

/// The warmup ramp never decreases: the rate is monotonically non-decreasing
/// on `[0, warmup_steps]` (and indeed everywhere).
pub proof fn lemma_constant_warmup_monotone(s: ConstantWithWarmup, t1: u64, t2: u64)
    requires
        s.wf(),
        t1 <= t2,
    ensures
        s.spec_lr(t1)->Ok_0 <= s.spec_lr(t2)->Ok_0,
{
    let b = s.spec_base_lr() as int;
    let w = s.spec_warmup_steps() as int;
    if t2 < w {
        lemma_scaled_frac_bounds(b, t1 as int, w);
        lemma_scaled_frac_bounds(b, t2 as int, w);
        vstd::arithmetic::mul::lemma_mul_inequality(t1 as int, t2 as int, b);
        assert(b * (t1 as int) == (t1 as int) * b) by (nonlinear_arith);
        assert(b * (t2 as int) == (t2 as int) * b) by (nonlinear_arith);
        vstd::arithmetic::div_mod::lemma_div_is_ordered(b * (t1 as int), b * (t2 as int), w);
    } else if t1 < w {
        lemma_scaled_frac_bounds(b, t1 as int, w);
    }
}


} // verus!

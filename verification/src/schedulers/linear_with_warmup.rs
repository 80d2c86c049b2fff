//! Linear rate with warmup: a ramp from zero to the base rate over the
//! warmup steps, then a linear decay to zero by the final step. Queries
//! beyond the final step fail with a range error.

use vstd::prelude::*;

use crate::Error;
use crate::schedulers::Schedule;
use crate::schedulers::lemma_scaled_frac_bounds;
use crate::schedulers::ramp_value;
use crate::schedulers::warmup_ramp;

verus! {

/// Linear decay schedule with a linear warmup.
pub struct LinearWithWarmup {
    warmup_steps: u64,
    max_steps: u64,
    base_lr: i64,
}

impl LinearWithWarmup {
    /// The warmup length this schedule was built with.
    pub closed spec fn spec_warmup_steps(&self) -> u64 {
        self.warmup_steps
    }

    /// The horizon this schedule was built with.
    pub closed spec fn spec_max_steps(&self) -> u64 {
        self.max_steps
    }

    /// The base rate this schedule was built with.
    pub closed spec fn spec_base_lr(&self) -> i64 {
        self.base_lr
    }

    /// Build the schedule; fails with a configuration error exactly when the
    /// warmup exceeds the horizon, the horizon is zero, or the base rate is
    /// not positive.
    pub fn try_new(warmup_steps: u64, max_steps: u64, base_lr: i64) -> (r: Result<
        LinearWithWarmup,
        Error,
    >)
        ensures
            (warmup_steps <= max_steps && max_steps > 0 && base_lr > 0) ==> (r matches Ok(s)
                && s.wf() && s.spec_warmup_steps() == warmup_steps && s.spec_max_steps()
                == max_steps && s.spec_base_lr() == base_lr),
            (warmup_steps > max_steps || max_steps == 0 || base_lr <= 0) ==> r == Err::<
                LinearWithWarmup,
                Error,
            >(Error::Configuration),
    {
        if warmup_steps > max_steps {
            return Err(Error::Configuration);
        }
        if max_steps == 0 {
            return Err(Error::Configuration);
        }
        if base_lr <= 0 {
            return Err(Error::Configuration);
        }
        Ok(LinearWithWarmup { warmup_steps, max_steps, base_lr })
    }
}

impl Schedule for LinearWithWarmup {
    closed spec fn wf(&self) -> bool {
        &&& self.base_lr > 0
        &&& self.warmup_steps <= self.max_steps
        &&& self.max_steps > 0
    }

    closed spec fn spec_lr(&self, step_t: u64) -> Result<i64, Error> {
        if step_t > self.max_steps {
            Err(Error::Range)
        } else if step_t <= self.warmup_steps {
            Ok(warmup_ramp(self.base_lr as int, step_t as int, self.warmup_steps as int) as i64)
        } else {
            Ok(
                ((self.base_lr as int * (self.max_steps - step_t)) / (self.max_steps
                    - self.warmup_steps)) as i64,
            )
        }
    }

    fn get_lr(&self, step_t: u64) -> (r: Result<i64, Error>) {
        if step_t > self.max_steps {
            return Err(Error::Range);
        }
        if step_t <= self.warmup_steps {
            return Ok(ramp_value(self.base_lr, step_t, self.warmup_steps));
        }
        proof {
            assert(self.base_lr as int * ((self.max_steps - step_t) as int) < 0x8000000000000000
                * 0x10000000000000000) by (nonlinear_arith)
                requires
                    0 <= self.base_lr as int,
                    (self.base_lr as int) < 0x8000000000000000,
                    0 <= (self.max_steps - step_t) as int,
                    ((self.max_steps - step_t) as int) < 0x10000000000000000,
            ;
            lemma_scaled_frac_bounds(
                self.base_lr as int,
                (self.max_steps - step_t) as int,
                (self.max_steps - self.warmup_steps) as int,
            );
        }
        let q: u128 = ((self.base_lr as u128) * ((self.max_steps - step_t) as u128)) / ((
        self.max_steps - self.warmup_steps) as u128);
        Ok(q as i64)
    }
}

/// A positive warmup ramps from zero: the rate at step 0 is exactly 0.
pub proof fn lemma_linear_starts_at_zero(s: LinearWithWarmup)
    requires
        s.wf(),
        s.spec_warmup_steps() > 0,
    ensures
        s.spec_lr(0) == Ok::<i64, Error>(0),
{
    assert(s.spec_base_lr() as int * 0 == 0) by (nonlinear_arith);
    vstd::arithmetic::div_mod::lemma_div_of0(s.spec_warmup_steps() as int);
}

/// The rate at the horizon is exactly zero, whenever the decay phase is
/// nonempty (with `warmup_steps == max_steps` the curve is all warmup and
/// ends at the base rate instead).
pub proof fn lemma_linear_zero_at_max(s: LinearWithWarmup)
    requires
        s.wf(),
        s.spec_warmup_steps() < s.spec_max_steps(),
    ensures
        s.spec_lr(s.spec_max_steps()) == Ok::<i64, Error>(0),
{
    assert(s.spec_base_lr() as int * ((s.spec_max_steps() - s.spec_max_steps()) as int) == 0)
        by (nonlinear_arith);
    vstd::arithmetic::div_mod::lemma_div_of0((s.spec_max_steps() - s.spec_warmup_steps()) as int);
}

/// The rate is monotonically non-decreasing over the warmup phase.
pub proof fn lemma_linear_warmup_monotone(s: LinearWithWarmup, t1: u64, t2: u64)
    requires
        s.wf(),
        t1 <= t2 <= s.spec_warmup_steps(),
    ensures
        s.spec_lr(t1)->Ok_0 <= s.spec_lr(t2)->Ok_0,
{
    let b = s.spec_base_lr() as int;
    let w = s.spec_warmup_steps() as int;
    if t2 < w {
        lemma_scaled_frac_bounds(b, t1 as int, w);
        lemma_scaled_frac_bounds(b, t2 as int, w);
        vstd::arithmetic::mul::lemma_mul_inequality(t1 as int, t2 as int, b);
        assert(b * (t1 as int) == (t1 as int) * b) by (nonlinear_arith);
        assert(b * (t2 as int) == (t2 as int) * b) by (nonlinear_arith);
        vstd::arithmetic::div_mod::lemma_div_is_ordered(b * (t1 as int), b * (t2 as int), w);
    } else if t1 < w {
        lemma_scaled_frac_bounds(b, t1 as int, w);
    }
}

/// The rate is monotonically non-increasing over the decay phase.
pub proof fn lemma_linear_decay_monotone(s: LinearWithWarmup, t1: u64, t2: u64)
    requires
        s.wf(),
        s.spec_warmup_steps() <= t1 <= t2 <= s.spec_max_steps(),
    ensures
        s.spec_lr(t1)->Ok_0 >= s.spec_lr(t2)->Ok_0,
{
    let b = s.spec_base_lr() as int;
    let w = s.spec_warmup_steps() as int;
    let mx = s.spec_max_steps() as int;
    if t1 as int == w {
        if t2 as int > w {
            lemma_scaled_frac_bounds(b, mx - t2, mx - w);
        }
    } else {
        lemma_scaled_frac_bounds(b, mx - t1, mx - w);
        lemma_scaled_frac_bounds(b, mx - t2, mx - w);
        vstd::arithmetic::mul::lemma_mul_inequality(mx - t2, mx - t1, b);
        assert(b * (mx - t2) == (mx - t2) * b) by (nonlinear_arith);
        assert(b * (mx - t1) == (mx - t1) * b) by (nonlinear_arith);
        vstd::arithmetic::div_mod::lemma_div_is_ordered(b * (mx - t2), b * (mx - t1), mx - w);
    }
}

} // verus!

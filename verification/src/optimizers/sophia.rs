//! Hyperparameter shape for a Sophia optimizer. Only the configuration is
//! defined; the update rule itself has no authoritative statement yet, so no
//! step algorithm is provided.

use vstd::prelude::*;

use crate::fixed::SCALE;

verus! {

/// Sophia hyperparameters, in fixed point (units of `1 / SCALE`).
#[derive(Clone, Copy, Debug, PartialEq, Eq, Structural)]
pub struct ParamsSophia {
    pub lr: i64,
    pub beta1: i64,
    pub beta2: i64,
    pub eps: i64,
    pub weight_decay: i64,
    pub rho: i64,
}

impl ParamsSophia {
    /// The hyperparameter invariant: decay rates in `[0, 1)` and a positive
    /// numerical-stability offset.
    pub open spec fn valid(&self) -> bool {
        &&& 0 <= self.beta1 < SCALE
        &&& 0 <= self.beta2 < SCALE
        &&& self.eps > 0
    }
}

impl Default for ParamsSophia {
    /// The stock configuration: `lr = 0.0001`, `beta1 = 0.965`,
    /// `beta2 = 0.99`, `eps = 1e-6`, `weight_decay = 0.1`, `rho = 0.04`.
    fn default() -> (c: Self)
        ensures
            c == (ParamsSophia {
                lr: 100_000,
                beta1: 965_000_000,
                beta2: 990_000_000,
                eps: 1_000,
                weight_decay: 100_000_000,
                rho: 40_000_000,
            }),
            c.valid(),
    {
        ParamsSophia {
            lr: 100_000,
            beta1: 965_000_000,
            beta2: 990_000_000,
            eps: 1_000,
            weight_decay: 100_000_000,
            rho: 40_000_000,
        }
    }
}

} // verus!

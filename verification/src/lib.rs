//! Gradient-based parameter optimizers (AdamW with optional AMSGrad, LAMB)
//! and learning-rate schedulers (constant-, linear- and cosine-with-warmup),
//! together with the scheduler/optimizer coordination protocol that drives
//! learning-rate mutation over a training run.
//!
//! All numeric state is held in exact fixed-point arithmetic: a value is an
//! `i64` count of units of `1 / SCALE`, so every update formula has a precise
//! mathematical statement and every contract pins the result down to the bit.
//! The external tensor backend, autograd and any floating-point conversion
//! live outside this crate; the core consumes plain gradient values and owns
//! the per-parameter optimizer state.

use vstd::prelude::*;

pub mod fixed;
pub mod ops;
pub mod optimizers;
pub mod schedulers;
pub mod tensor;

verus! {

/// The failures this core can surface, as a plain result to the caller.
#[derive(Clone, Copy, Debug, PartialEq, Eq, Structural)]
pub enum Error {
    /// Invalid hyperparameters or schedule bounds, detected at construction.
    Configuration,
    /// A schedule was queried with a step index beyond its declared horizon.
    Range,
    /// A numeric failure surfaced from the tensor values themselves: a shape
    /// mismatch between operands, or an intermediate that does not fit the
    /// fixed-point range.
    Numeric,
}


} // verus!

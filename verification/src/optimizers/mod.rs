//! Stateful per-parameter update algorithms. Each optimizer owns one state
//! record per parameter, created at construction in the order of the input
//! parameter list; a parameter's identity is its index in that list. Each
//! update call consumes a gradient map (parameter index to optional gradient)
//! produced by an external backward pass.

use vstd::prelude::*;

use crate::tensor::Tensor;

pub use adamw::AdamW;
pub use adamw::ConfigAdamW;
pub use lamb::LAMB_RATIO_MAX;
pub use lamb::LAMB_RATIO_MIN;
pub use lamb::Lamb;
pub use lamb::ParamsLamb;
pub use lamb::trust_ratio;
pub use sophia::ParamsSophia;

mod adamw;
mod lamb;
mod sophia;

verus! {

/// Lookup table from parameter identity (index in the optimizer's parameter
/// list) to the parameter's gradient for the current step. A parameter with
/// no entry is simply skipped by the optimizers; that is not an error.
pub struct GradientMap {
    grads: Vec<Option<Tensor>>,
}

/// The gradient the map holds for parameter `i`: `None` outside the map's
/// range or where no gradient was recorded.
pub open spec fn grad_at(gm: Seq<Option<Seq<i64>>>, i: int) -> Option<Seq<i64>> {
    if 0 <= i < gm.len() {
        gm[i]
    } else {
        None
    }
}

impl View for GradientMap {
    type V = Seq<Option<Seq<i64>>>;

    closed spec fn view(&self) -> Seq<Option<Seq<i64>>> {
        self.grads@.map_values(
            |g: Option<Tensor>|
                match g {
                    Some(t) => Some(t@),
                    None => None,
                },
        )
    }
}

impl GradientMap {
    /// An empty map for `n` parameters: every parameter starts without a
    /// gradient entry.
    pub fn new(n: usize) -> (gm: GradientMap)
        ensures
            gm@.len() == n,
            forall|i: int| 0 <= i < n ==> gm@[i] is None,
    {
        let mut grads: Vec<Option<Tensor>> = Vec::new();
        let mut i: usize = 0;
        while i < n
            invariant
                i <= n,
                grads@.len() == i,
                forall|k: int| 0 <= k < i ==> grads@[k] is None,
            decreases n - i,
        {
            grads.push(None);
            i = i + 1;
        }
        let gm = GradientMap { grads };
        proof {
            assert(forall|k: int| 0 <= k < n ==> gm@[k] is None);
        }
        gm
    }

    /// Number of parameter slots.
    pub fn len(&self) -> (n: usize)
        ensures
            n == self@.len(),
    {
        self.grads.len()
    }

    /// Record the gradient for parameter `i`.
    pub fn set(&mut self, i: usize, g: Tensor)
        requires
            i < old(self)@.len(),
        ensures
            final(self)@ == old(self)@.update(i as int, Some(g@)),
    {
        self.grads[i] = Some(g);
        proof {
            assert(final(self)@ =~= old(self)@.update(i as int, Some(g@)));
        }
    }

    /// Look up parameter `i`; `None` when the parameter has no gradient this
    /// step or lies outside the map's range.
    pub fn get(&self, i: usize) -> (r: Option<&Tensor>)
        ensures
            match r {
                Some(t) => grad_at(self@, i as int) == Some(t@),
                None => grad_at(self@, i as int) is None,
            },
    {
        if i < self.grads.len() {
            match &self.grads[i] {
                Some(t) => Some(t),
                None => None,
            }
        } else {
            None
        }
    }
}

/// The capability an optimizer exposes to the scheduler and the training
/// loop: read and overwrite the learning rate. Rate mutation performs no
/// validation and preserves the optimizer's well-formedness.
pub trait Optimizer: Sized {
    /// The optimizer's internal consistency invariant.
    spec fn wf(&self) -> bool;

    /// The currently configured learning rate, in fixed point.
    spec fn lr_spec(&self) -> i64;

    /// Everything but the learning rate agrees between `self` and `other`:
    /// same step count, same parameters and optimizer state, same
    /// hyperparameters apart from the rate.
    spec fn same_but_lr(&self, other: &Self) -> bool;

    /// Read the configured learning rate.
    fn learning_rate(&self) -> (lr: i64)
        ensures
            lr == self.lr_spec(),
    ;

    /// Overwrite the configured learning rate, with no validation; nothing
    /// but the rate changes.
    fn set_learning_rate(&mut self, lr: i64)
        requires
            old(self).wf(),
        ensures
            final(self).wf(),
            final(self).lr_spec() == lr,
            old(self).same_but_lr(final(self)),
    ;
}

} // verus!

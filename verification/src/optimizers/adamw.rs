//! AdamW: decoupled weight decay with optional AMSGrad. The per-step update
//! keeps, for every parameter, exponential moving averages of the gradient
//! and of its square, corrects their zero-initialization bias, and steps the
//! parameter against the adaptive gradient after shrinking it multiplicatively
//! by the decoupled weight-decay factor.

use vstd::prelude::*;

use crate::Error;
use crate::fixed::SCALE;
use crate::fixed::bias_scale;
use crate::fixed::bias_scale_spec;
use crate::fixed::div_fx;
use crate::fixed::fx_div;
use crate::fixed::fx_mul;
use crate::fixed::fx_sqrt;
use crate::fixed::i64_fits;
use crate::fixed::lemma_fx_mul_nonneg;
use crate::fixed::lemma_tdiv_nonneg;
use crate::fixed::mul_fx;
use crate::fixed::sqrt_fx;
use crate::optimizers::GradientMap;
use crate::optimizers::Optimizer;
use crate::optimizers::grad_at;
use crate::tensor::Tensor;

verus! {

/// AdamW hyperparameters, in fixed point (units of `1 / SCALE`).
#[derive(Clone, Copy, Debug, PartialEq, Eq, Structural)]
pub struct ConfigAdamW {
    pub lr: i64,
    pub beta1: i64,
    pub beta2: i64,
    pub eps: i64,
    pub weight_decay: i64,
    pub amsgrad: bool,
}

impl ConfigAdamW {
    /// The hyperparameter invariant: decay rates in `[0, 1)` and a positive
    /// numerical-stability offset.
    pub open spec fn valid(&self) -> bool {
        &&& 0 <= self.beta1 < SCALE
        &&& 0 <= self.beta2 < SCALE
        &&& self.eps > 0
    }
}

impl Default for ConfigAdamW {
    /// The stock configuration: `lr = 0.001`, `beta1 = 0.9`, `beta2 = 0.999`,
    /// `eps = 1e-8`, `weight_decay = 0.01`, AMSGrad off.
    fn default() -> (c: Self)
        ensures
            c == (ConfigAdamW {
                lr: 1_000_000,
                beta1: 900_000_000,
                beta2: 999_000_000,
                eps: 10,
                weight_decay: 10_000_000,
                amsgrad: false,
            }),
            c.valid(),
    {
        ConfigAdamW {
            lr: 1_000_000,
            beta1: 900_000_000,
            beta2: 999_000_000,
            eps: 10,
            weight_decay: 10_000_000,
            amsgrad: false,
        }
    }
}

/// One parameter's state record: the parameter itself and its moment buffers.
struct VarAdamW {
    var: Tensor,
    first_moment: Tensor,
    second_moment: Tensor,
    vhm: Option<Tensor>,
}

/// One element's AdamW update. Produces the new parameter element, first and
/// second moment, and running maximum of the bias-corrected second moment;
/// `None` exactly when some intermediate leaves the `i64` range. `decay`
/// is `SCALE - lr * weight_decay`, `sm` and `sv` the bias-correction factors
/// for the current step, and `first` marks the first step ever taken.
pub open spec fn adamw_elem(
    b1: int,
    b2: int,
    eps: int,
    lr: int,
    decay: int,
    sm: int,
    sv: int,
    ams: bool,
    first: bool,
    th: int,
    m: int,
    v: int,
    vm: int,
    g: int,
) -> Option<(int, int, int, int)> {
    let nm_a = fx_mul(b1, m);
    let nm_b = fx_mul(SCALE as int - b1, g);
    let nm = nm_a + nm_b;
    let g2 = fx_mul(g, g);
    let nv_a = fx_mul(b2, v);
    let nv_b = fx_mul(SCALE as int - b2, g2);
    let nv = nv_a + nv_b;
    let m_hat = fx_mul(nm, sm);
    let v_hat = fx_mul(nv, sv);
    let nvm = if !ams {
        vm
    } else if first {
        v_hat
    } else if v_hat > vm {
        v_hat
    } else {
        vm
    };
    let vden = if ams {
        nvm
    } else {
        v_hat
    };
    let root = fx_sqrt(vden);
    let denom = root + eps;
    let adj = fx_div(m_hat, denom);
    let stepv = fx_mul(adj, lr);
    let th1 = fx_mul(th, decay);
    let nth = th1 - stepv;
    if i64_fits(nm_a) && i64_fits(nm_b) && i64_fits(nm) && i64_fits(g2) && i64_fits(nv_a)
        && i64_fits(nv_b) && i64_fits(nv) && i64_fits(m_hat) && i64_fits(v_hat) && i64_fits(denom)
        && i64_fits(adj) && i64_fits(stepv) && i64_fits(th1) && i64_fits(nth) {
        Some((nth, nm, nv, nvm))
    } else {
        None
    }
}

/// The slot of the running-maximum buffer an element update reads: zero when
/// AMSGrad is off (the value is then ignored).
pub open spec fn vm_elem(ams: bool, vm: Seq<i64>, k: int) -> int {
    if ams {
        vm[k] as int
    } else {
        0
    }
}

/// Whether a whole parameter's AdamW update succeeds: the gradient has the
/// parameter's shape and every element update fits.
pub open spec fn adamw_param_ok(
    b1: int,
    b2: int,
    eps: int,
    lr: int,
    decay: int,
    sm: int,
    sv: int,
    ams: bool,
    first: bool,
    th: Seq<i64>,
    m: Seq<i64>,
    v: Seq<i64>,
    vm: Seq<i64>,
    g: Seq<i64>,
) -> bool {
    &&& g.len() == th.len()
    &&& forall|k: int|
        0 <= k < th.len() ==> adamw_elem(
            b1,
            b2,
            eps,
            lr,
            decay,
            sm,
            sv,
            ams,
            first,
            th[k] as int,
            m[k] as int,
            v[k] as int,
            vm_elem(ams, vm, k),
            g[k] as int,
        ) is Some
}

/// The new buffers of one parameter after a successful AdamW update, element
/// by element.
pub open spec fn adamw_param_post(
    b1: int,
    b2: int,
    eps: int,
    lr: int,
    decay: int,
    sm: int,
    sv: int,
    ams: bool,
    first: bool,
    th: Seq<i64>,
    m: Seq<i64>,
    v: Seq<i64>,
    vm: Seq<i64>,
    g: Seq<i64>,
    nth: Seq<i64>,
    nm: Seq<i64>,
    nv: Seq<i64>,
    nvm: Seq<i64>,
) -> bool {
    &&& nth.len() == th.len()
    &&& nm.len() == th.len()
    &&& nv.len() == th.len()
    &&& (ams ==> nvm.len() == th.len())
    &&& forall|k: int|
        #![trigger nth[k]]
        #![trigger g[k]]
        0 <= k < th.len() ==> {
            let e = adamw_elem(
                b1,
                b2,
                eps,
                lr,
                decay,
                sm,
                sv,
                ams,
                first,
                th[k] as int,
                m[k] as int,
                v[k] as int,
                vm_elem(ams, vm, k),
                g[k] as int,
            );
            &&& e is Some
            &&& (e->Some_0).0 == nth[k] as int
            &&& (e->Some_0).1 == nm[k] as int
            &&& (e->Some_0).2 == nv[k] as int
            &&& (ams ==> (e->Some_0).3 == nvm[k] as int)
        }
}

/// One element's update, checked; `None` exactly when the corresponding
/// specification-level update is `None`.
fn elem_update(
    b1: i64,
    b2: i64,
    eps: i64,
    lr: i64,
    decay: i64,
    sm: i64,
    sv: i64,
    ams: bool,
    first: bool,
    th: i64,
    m: i64,
    v: i64,
    vm: i64,
    g: i64,
) -> (r: Option<(i64, i64, i64, i64)>)
    requires
        0 <= b1 < SCALE,
        0 <= b2 < SCALE,
        eps > 0,
        v >= 0,
        vm >= 0,
        sv >= 0,
    ensures
        match r {
            Some(o) => {
                &&& adamw_elem(
                    b1 as int,
                    b2 as int,
                    eps as int,
                    lr as int,
                    decay as int,
                    sm as int,
                    sv as int,
                    ams,
                    first,
                    th as int,
                    m as int,
                    v as int,
                    vm as int,
                    g as int,
                ) == Some((o.0 as int, o.1 as int, o.2 as int, o.3 as int))
                &&& o.2 >= 0
                &&& o.3 >= 0
            },
            None => adamw_elem(
                b1 as int,
                b2 as int,
                eps as int,
                lr as int,
                decay as int,
                sm as int,
                sv as int,
                ams,
                first,
                th as int,
                m as int,
                v as int,
                vm as int,
                g as int,
            ) is None,
        },
{
    let nm_a = match mul_fx(b1, m) {
        Some(x) => x,
        None => {
            return None;
        },
    };
    let nm_b = match mul_fx(SCALE - b1, g) {
        Some(x) => x,
        None => {
            return None;
        },
    };
    let nm = match nm_a.checked_add(nm_b) {
        Some(x) => x,
        None => {
            return None;
        },
    };
    let g2 = match mul_fx(g, g) {
        Some(x) => x,
        None => {
            return None;
        },
    };
    proof {
        assert(g as int * (g as int) >= 0) by (nonlinear_arith);
        lemma_tdiv_nonneg(g as int * (g as int), SCALE as int);
        lemma_fx_mul_nonneg(b2 as int, v as int);
        lemma_fx_mul_nonneg(SCALE as int - b2, fx_mul(g as int, g as int));
    }
    let nv_a = match mul_fx(b2, v) {
        Some(x) => x,
        None => {
            return None;
        },
    };
    let nv_b = match mul_fx(SCALE - b2, g2) {
        Some(x) => x,
        None => {
            return None;
        },
    };
    let nv = match nv_a.checked_add(nv_b) {
        Some(x) => x,
        None => {
            return None;
        },
    };
    let m_hat = match mul_fx(nm, sm) {
        Some(x) => x,
        None => {
            return None;
        },
    };
    proof {
        lemma_fx_mul_nonneg(nv as int, sv as int);
    }
    let v_hat = match mul_fx(nv, sv) {
        Some(x) => x,
        None => {
            return None;
        },
    };
    let nvm: i64 = if !ams {
        vm
    } else if first {
        v_hat
    } else if v_hat > vm {
        v_hat
    } else {
        vm
    };
    let vden: i64 = if ams {
        nvm
    } else {
        v_hat
    };
    let root = sqrt_fx(vden);
    let denom = match root.checked_add(eps) {
        Some(x) => x,
        None => {
            return None;
        },
    };
    let adj = match div_fx(m_hat, denom) {
        Some(x) => x,
        None => {
            return None;
        },
    };
    let stepv = match mul_fx(adj, lr) {
        Some(x) => x,
        None => {
            return None;
        },
    };
    let th1 = match mul_fx(th, decay) {
        Some(x) => x,
        None => {
            return None;
        },
    };
    let nth = match th1.checked_sub(stepv) {
        Some(x) => x,
        None => {
            return None;
        },
    };
    Some((nth, nm, nv, nvm))
}

/// Update one parameter's buffers against its gradient; `None` exactly when
/// the shapes mismatch or some element update does not fit.
fn update_var(
    b1: i64,
    b2: i64,
    eps: i64,
    lr: i64,
    decay: i64,
    sm: i64,
    sv: i64,
    ams: bool,
    first: bool,
    th: &Tensor,
    m: &Tensor,
    v: &Tensor,
    vm: Option<&Tensor>,
    g: &Tensor,
) -> (r: Option<(Tensor, Tensor, Tensor, Tensor)>)
    requires
        0 <= b1 < SCALE,
        0 <= b2 < SCALE,
        eps > 0,
        sv >= 0,
        m@.len() == th@.len(),
        v@.len() == th@.len(),
        forall|k: int| 0 <= k < v@.len() ==> v@[k] >= 0,
        ams == (vm is Some),
        ams ==> (vm->Some_0)@.len() == th@.len() && (forall|k: int|
            0 <= k < th@.len() ==> (vm->Some_0)@[k] >= 0),
    ensures
        match r {
            Some(o) => {
                &&& adamw_param_ok(
                    b1 as int,
                    b2 as int,
                    eps as int,
                    lr as int,
                    decay as int,
                    sm as int,
                    sv as int,
                    ams,
                    first,
                    th@,
                    m@,
                    v@,
                    vm_view(vm),
                    g@,
                )
                &&& adamw_param_post(
                    b1 as int,
                    b2 as int,
                    eps as int,
                    lr as int,
                    decay as int,
                    sm as int,
                    sv as int,
                    ams,
                    first,
                    th@,
                    m@,
                    v@,
                    vm_view(vm),
                    g@,
                    o.0@,
                    o.1@,
                    o.2@,
                    o.3@,
                )
                &&& forall|k: int| 0 <= k < o.2@.len() ==> o.2@[k] >= 0
                &&& forall|k: int| 0 <= k < o.3@.len() ==> o.3@[k] >= 0
                &&& o.3@.len() == (if ams {
                    th@.len()
                } else {
                    0
                })
            },
            None => !adamw_param_ok(
                b1 as int,
                b2 as int,
                eps as int,
                lr as int,
                decay as int,
                sm as int,
                sv as int,
                ams,
                first,
                th@,
                m@,
                v@,
                vm_view(vm),
                g@,
            ),
        },
{
    let n = th.len();
    if g.len() != n {
        return None;
    }
    let mut nth: Vec<i64> = Vec::new();
    let mut nm: Vec<i64> = Vec::new();
    let mut nv: Vec<i64> = Vec::new();
    let mut nvm: Vec<i64> = Vec::new();
    let mut k: usize = 0;
    while k < n
        invariant
            0 <= b1 < SCALE,
            0 <= b2 < SCALE,
            eps > 0,
            sv >= 0,
            k <= n,
            n == th@.len(),
            m@.len() == n,
            v@.len() == n,
            g@.len() == n,
            forall|j: int| 0 <= j < n ==> v@[j] >= 0,
            ams == (vm is Some),
            ams ==> (vm->Some_0)@.len() == n && (forall|j: int|
                0 <= j < n ==> (vm->Some_0)@[j] >= 0),
            nth@.len() == k,
            nm@.len() == k,
            nv@.len() == k,
            nvm@.len() == (if ams {
                k as int
            } else {
                0
            }),
            forall|j: int|
                #![trigger g@[j]]
                0 <= j < k ==> {
                    let e = adamw_elem(
                        b1 as int,
                        b2 as int,
                        eps as int,
                        lr as int,
                        decay as int,
                        sm as int,
                        sv as int,
                        ams,
                        first,
                        th@[j] as int,
                        m@[j] as int,
                        v@[j] as int,
                        vm_elem(ams, vm_view(vm), j),
                        g@[j] as int,
                    );
                    &&& e is Some
                    &&& (e->Some_0).0 == nth@[j] as int
                    &&& (e->Some_0).1 == nm@[j] as int
                    &&& (e->Some_0).2 == nv@[j] as int
                    &&& (ams ==> (e->Some_0).3 == nvm@[j] as int)
                },
            forall|j: int| 0 <= j < k ==> nv@[j] >= 0,
            forall|j: int| 0 <= j < nvm@.len() ==> nvm@[j] >= 0,
        decreases n - k,
    {
        let vmk: i64 = match vm {
            Some(t) => t.get(k),
            None => 0,
        };
        let e = elem_update(
            b1,
            b2,
            eps,
            lr,
            decay,
            sm,
            sv,
            ams,
            first,
            th.get(k),
            m.get(k),
            v.get(k),
            vmk,
            g.get(k),
        );
        match e {
            Some(o) => {
                nth.push(o.0);
                nm.push(o.1);
                nv.push(o.2);
                if ams {
                    nvm.push(o.3);
                }
            },
            None => {
                return None;
            },
        }
        k = k + 1;
    }
    Some((Tensor::new(nth), Tensor::new(nm), Tensor::new(nv), Tensor::new(nvm)))
}

/// The buffer sequence behind an optional running-maximum tensor.
pub open spec fn vm_view_opt(vm: Option<Seq<i64>>) -> Seq<i64> {
    match vm {
        Some(s) => s,
        None => Seq::empty(),
    }
}

spec fn vm_view(vm: Option<&Tensor>) -> Seq<i64> {
    match vm {
        Some(t) => t@,
        None => Seq::empty(),
    }
}

/// AdamW over a list of parameters, with one state record per parameter.
pub struct AdamW {
    vars: Vec<VarAdamW>,
    step_t: u64,
    params: ConfigAdamW,
}

impl AdamW {
    /// Number of parameters under optimization.
    pub closed spec fn n_params(&self) -> nat {
        self.vars@.len()
    }

    /// The hyperparameter configuration.
    pub closed spec fn spec_params(&self) -> ConfigAdamW {
        self.params
    }

    /// Number of update calls taken so far.
    pub closed spec fn spec_step_t(&self) -> u64 {
        self.step_t
    }

    /// Parameter `i`'s current value.
    pub closed spec fn theta_at(&self, i: int) -> Seq<i64> {
        self.vars@[i].var@
    }

    /// Parameter `i`'s first-moment buffer.
    pub closed spec fn m_at(&self, i: int) -> Seq<i64> {
        self.vars@[i].first_moment@
    }

    /// Parameter `i`'s second-moment buffer.
    pub closed spec fn v_at(&self, i: int) -> Seq<i64> {
        self.vars@[i].second_moment@
    }

    /// Parameter `i`'s running maximum of the bias-corrected second moment;
    /// present exactly when AMSGrad is on.
    pub closed spec fn vhm_at(&self, i: int) -> Option<Seq<i64>> {
        match self.vars@[i].vhm {
            Some(t) => Some(t@),
            None => None,
        }
    }

    /// Internal consistency: valid hyperparameters; per parameter, moment
    /// buffers of the parameter's shape, a running maximum exactly when
    /// AMSGrad is on, and nonnegative second moments.
    pub closed spec fn inv(&self) -> bool {
        &&& self.params.valid()
        &&& forall|i: int|
            0 <= i < self.n_params() ==> var_inv(#[trigger] self.vars@[i], self.params.amsgrad)
    }
}

/// A freshly built state record: the parameter itself, zero moments, and a
/// zero running maximum exactly when AMSGrad is on.
spec fn var_fresh(v: VarAdamW, t: Tensor, ams: bool) -> bool {
    &&& v.var@ == t@
    &&& v.first_moment@.len() == t@.len()
    &&& v.second_moment@.len() == t@.len()
    &&& (forall|k: int| 0 <= k < t@.len() ==> v.first_moment@[k] == 0i64)
    &&& (forall|k: int| 0 <= k < t@.len() ==> v.second_moment@[k] == 0i64)
    &&& (ams ==> v.vhm is Some && (v.vhm->Some_0)@.len() == t@.len() && (forall|k: int|
        0 <= k < t@.len() ==> (v.vhm->Some_0)@[k] == 0i64))
    &&& (!ams ==> v.vhm is None)
}

/// The per-record part of the optimizer invariant.
spec fn var_inv(v: VarAdamW, ams: bool) -> bool {
    &&& v.first_moment@.len() == v.var@.len()
    &&& v.second_moment@.len() == v.var@.len()
    &&& (ams ==> v.vhm is Some && (v.vhm->Some_0)@.len() == v.var@.len())
    &&& (!ams ==> v.vhm is None)
    &&& (forall|k: int| 0 <= k < v.second_moment@.len() ==> v.second_moment@[k] >= 0)
    &&& (ams ==> forall|k: int| 0 <= k < (v.vhm->Some_0)@.len() ==> (v.vhm->Some_0)@[k] >= 0)
}

/// Parameter `i` carries the same value and optimizer state in `post` as in
/// `pre`.
pub open spec fn adamw_var_unchanged(pre: &AdamW, post: &AdamW, i: int) -> bool {
    &&& post.theta_at(i) == pre.theta_at(i)
    &&& post.m_at(i) == pre.m_at(i)
    &&& post.v_at(i) == pre.v_at(i)
    &&& post.vhm_at(i) == pre.vhm_at(i)
}

/// Whether the pre-loop scalars of a step fit: the decay product
/// `lr * weight_decay` and the factor `SCALE` minus it.
pub open spec fn adamw_pre_ok(c: ConfigAdamW) -> bool {
    &&& i64_fits(fx_mul(c.lr as int, c.weight_decay as int))
    &&& i64_fits(SCALE as int - fx_mul(c.lr as int, c.weight_decay as int))
}

/// Parameter `i`'s update against gradient `g` succeeds, for the step that
/// takes `pre` from step count `pre.spec_step_t()` to the next one.
pub open spec fn adamw_var_ok(pre: &AdamW, i: int, g: Seq<i64>) -> bool {
    let c = pre.spec_params();
    let t = (pre.spec_step_t() + 1) as nat;
    adamw_param_ok(
        c.beta1 as int,
        c.beta2 as int,
        c.eps as int,
        c.lr as int,
        SCALE as int - fx_mul(c.lr as int, c.weight_decay as int),
        bias_scale_spec(c.beta1 as int, t),
        bias_scale_spec(c.beta2 as int, t),
        c.amsgrad,
        t == 1,
        pre.theta_at(i),
        pre.m_at(i),
        pre.v_at(i),
        vm_view_opt(pre.vhm_at(i)),
        g,
    )
}

/// Parameter `i` in `post` holds exactly the AdamW update of its state in
/// `pre` against gradient `g`.
pub open spec fn adamw_var_stepped(pre: &AdamW, post: &AdamW, i: int, g: Seq<i64>) -> bool {
    let c = pre.spec_params();
    let t = (pre.spec_step_t() + 1) as nat;
    &&& adamw_param_post(
        c.beta1 as int,
        c.beta2 as int,
        c.eps as int,
        c.lr as int,
        SCALE as int - fx_mul(c.lr as int, c.weight_decay as int),
        bias_scale_spec(c.beta1 as int, t),
        bias_scale_spec(c.beta2 as int, t),
        c.amsgrad,
        t == 1,
        pre.theta_at(i),
        pre.m_at(i),
        pre.v_at(i),
        vm_view_opt(pre.vhm_at(i)),
        g,
        post.theta_at(i),
        post.m_at(i),
        post.v_at(i),
        vm_view_opt(post.vhm_at(i)),
    )
    &&& (c.amsgrad ==> post.vhm_at(i) is Some)
    &&& (!c.amsgrad ==> post.vhm_at(i) == pre.vhm_at(i))
}

/// Parameter `i` was handled by a step: updated when the gradient map holds
/// an entry for it, left untouched otherwise.
pub open spec fn adamw_var_handled(
    pre: &AdamW,
    post: &AdamW,
    i: int,
    gm: Seq<Option<Seq<i64>>>,
) -> bool {
    match grad_at(gm, i) {
        None => adamw_var_unchanged(pre, post, i),
        Some(g) => adamw_var_ok(pre, i, g) && adamw_var_stepped(pre, post, i, g),
    }
}

/// A whole step succeeds: the pre-loop scalars fit and every parameter with
/// a gradient entry updates without leaving the fixed-point range.
pub open spec fn adamw_all_ok(pre: &AdamW, gm: Seq<Option<Seq<i64>>>) -> bool {
    &&& adamw_pre_ok(pre.spec_params())
    &&& forall|i: int|
        #![trigger grad_at(gm, i)]
        0 <= i < pre.n_params() ==> (grad_at(gm, i) matches Some(g) ==> adamw_var_ok(pre, i, g))
}

impl AdamW {
    /// Build an AdamW optimizer over `vars`: one state record per parameter,
    /// in the order given, with zero-initialized moment buffers (and, under
    /// AMSGrad, a zero-initialized running maximum).
    pub fn new(vars: Vec<Tensor>, config: ConfigAdamW) -> (r: Result<AdamW, Error>)
        requires
            config.valid(),
        ensures
            r matches Ok(o) && {
                &&& o.inv()
                &&& o.spec_step_t() == 0
                &&& o.spec_params() == config
                &&& o.n_params() == vars@.len()
                &&& forall|i: int|
                    0 <= i < vars@.len() ==> {
                        &&& o.theta_at(i) == vars@[i]@
                        &&& o.m_at(i).len() == vars@[i]@.len()
                        &&& o.v_at(i).len() == vars@[i]@.len()
                        &&& (forall|k: int| 0 <= k < o.m_at(i).len() ==> o.m_at(i)[k] == 0i64)
                        &&& (forall|k: int| 0 <= k < o.v_at(i).len() ==> o.v_at(i)[k] == 0i64)
                        &&& (config.amsgrad ==> o.vhm_at(i) is Some && vm_view_opt(
                            o.vhm_at(i),
                        ).len() == vars@[i]@.len() && (forall|k: int|
                            0 <= k < vars@[i]@.len() ==> vm_view_opt(o.vhm_at(i))[k] == 0i64))
                        &&& (!config.amsgrad ==> o.vhm_at(i) is None)
                    }
            },
    {
        let ghost orig: Seq<Tensor> = vars@;
        let mut rest = vars;
        let mut out: Vec<VarAdamW> = Vec::new();
        while rest.len() > 0
            invariant
                out@.len() + rest@.len() == orig.len(),
                rest@ =~= orig.skip(out@.len() as int),
                forall|i: int|
                    0 <= i < out@.len() ==> var_fresh(
                        #[trigger] out@[i],
                        orig[i],
                        config.amsgrad,
                    ),
            decreases rest@.len(),
        {
            let ghost lpre = out@.len() as int;
            proof {
                assert(orig.skip(lpre)[0] == orig[lpre]);
            }
            let t = rest.remove(0);
            proof {
                assert(t == orig[lpre]);
            }
            let n = t.len();
            let vhm = if config.amsgrad {
                Some(Tensor::zeros(n))
            } else {
                None
            };
            let nvar = VarAdamW {
                var: t,
                first_moment: Tensor::zeros(n),
                second_moment: Tensor::zeros(n),
                vhm,
            };
            let ghost nv0 = nvar;
            let ghost outpre = out@;
            out.push(nvar);
            proof {
                assert(out@ == outpre.push(nv0));
                assert(rest@ =~= orig.skip(out@.len() as int));
                assert(var_fresh(nv0, orig[lpre], config.amsgrad));
                assert forall|i: int|
                    0 <= i < out@.len() implies var_fresh(
                    #[trigger] out@[i],
                    orig[i],
                    config.amsgrad,
                ) by {
                    if i < lpre {
                        assert(out@[i] == outpre[i]);
                    } else {
                        assert(out@[i] == nv0);
                    }
                }
            }
        }
        let o = AdamW { vars: out, step_t: 0, params: config };
        proof {
            assert(o.vars@.len() == orig.len());
            assert forall|i: int|
                0 <= i < vars@.len() implies {
                &&& o.theta_at(i) == vars@[i]@
                &&& o.m_at(i).len() == vars@[i]@.len()
                &&& o.v_at(i).len() == vars@[i]@.len()
                &&& (forall|k: int| 0 <= k < o.m_at(i).len() ==> o.m_at(i)[k] == 0i64)
                &&& (forall|k: int| 0 <= k < o.v_at(i).len() ==> o.v_at(i)[k] == 0i64)
                &&& (config.amsgrad ==> o.vhm_at(i) is Some && vm_view_opt(o.vhm_at(i)).len()
                    == vars@[i]@.len() && (forall|k: int|
                    0 <= k < vars@[i]@.len() ==> vm_view_opt(o.vhm_at(i))[k] == 0i64))
                &&& (!config.amsgrad ==> o.vhm_at(i) is None)
            } by {
                assert(var_fresh(o.vars@[i], orig[i], config.amsgrad));
            }
            assert forall|i: int|
                0 <= i < o.n_params() implies var_inv(
                #[trigger] o.vars@[i],
                o.params.amsgrad,
            ) by {
                assert(var_fresh(o.vars@[i], orig[i], config.amsgrad));
            }
        }
        Ok(o)
    }

    /// One optimizer update against a gradient map. Increments the step
    /// counter, then updates every parameter that has a gradient entry:
    /// moments decay toward the new gradient, bias correction rescales them,
    /// AMSGrad (when on) raises the running maximum, and the parameter is
    /// shrunk by the decoupled weight-decay factor before the adaptive step
    /// is subtracted. Parameters without an entry are skipped, bit for bit.
    /// On a numeric failure the parameters already updated in the same call
    /// keep their new values; the failing one and all later ones are
    /// untouched.
    pub fn step(&mut self, grads: &GradientMap) -> (r: Result<(), Error>)
        requires
            old(self).inv(),
            old(self).spec_step_t() < u64::MAX,
        ensures
            final(self).inv(),
            final(self).spec_step_t() == old(self).spec_step_t() + 1,
            final(self).spec_params() == old(self).spec_params(),
            final(self).n_params() == old(self).n_params(),
            (r matches Ok(())) <==> adamw_all_ok(old(self), grads@),
            r matches Ok(()) ==> forall|i: int|
                0 <= i < old(self).n_params() ==> adamw_var_handled(old(self), final(self), i, grads@),
            r matches Err(e) ==> e == Error::Numeric,
            (r is Err && !adamw_pre_ok(old(self).spec_params())) ==> forall|i: int|
                0 <= i < old(self).n_params() ==> adamw_var_unchanged(old(self), final(self), i),
            (r is Err && adamw_pre_ok(old(self).spec_params())) ==> exists|j: int|
                {
                    &&& 0 <= j < old(self).n_params()
                    &&& #[trigger] grad_at(grads@, j) is Some
                    &&& (grad_at(grads@, j) matches Some(g) && !adamw_var_ok(old(self), j, g))
                    &&& (forall|i: int|
                        0 <= i < j ==> adamw_var_handled(old(self), final(self), i, grads@))
                    &&& (forall|i: int|
                        j <= i < old(self).n_params() ==> adamw_var_unchanged(
                            old(self),
                            final(self),
                            i,
                        ))
                },
    {
        self.step_t = self.step_t + 1;
        proof {
            assert(self.vars@ == old(self).vars@);
            assert forall|k: int|
                0 <= k < self.vars@.len() implies var_inv(
                self.vars@[k],
                self.params.amsgrad,
            ) by {
                assert(var_inv(old(self).vars@[k], old(self).spec_params().amsgrad));
            }
            assert forall|k: int|
                0 <= k < old(self).n_params() implies adamw_var_unchanged(
                old(self),
                self,
                k,
            ) by {
                assert(self.vars@[k] == old(self).vars@[k]);
            }
        }
        let c = self.params;
        let lrwd = match mul_fx(c.lr, c.weight_decay) {
            Some(x) => x,
            None => {
                return Err(Error::Numeric);
            },
        };
        let decay = match SCALE.checked_sub(lrwd) {
            Some(x) => x,
            None => {
                return Err(Error::Numeric);
            },
        };
        let sm = bias_scale(c.beta1, self.step_t);
        let sv = bias_scale(c.beta2, self.step_t);
        let first = self.step_t == 1;
        let n = self.vars.len();
        let mut i: usize = 0;
        while i < n
            invariant
                i <= n,
                n == self.vars@.len(),
                n == old(self).n_params(),
                self.step_t == old(self).spec_step_t() + 1,
                self.params == old(self).spec_params(),
                c == old(self).spec_params(),
                c.valid(),
                lrwd as int == fx_mul(c.lr as int, c.weight_decay as int),
                decay as int == SCALE as int - fx_mul(c.lr as int, c.weight_decay as int),
                sm as int == bias_scale_spec(c.beta1 as int, self.step_t as nat),
                sv as int == bias_scale_spec(c.beta2 as int, self.step_t as nat),
                sv >= 0,
                first == (self.step_t == 1),
                forall|k: int| 0 <= k < i ==> adamw_var_handled(old(self), self, k, grads@),
                forall|k: int| i <= k < n ==> self.vars@[k] == old(self).vars@[k],
                self.inv(),
            decreases n - i,
        {
            let ghost snap = *self;
            let gi = grads.get(i);
            match gi {
                None => {
                    proof {
                        assert(grad_at(grads@, i as int) is None);
                        assert(adamw_var_unchanged(old(self), self, i as int));
                    }
                },
                Some(g) => {
                    let var = &self.vars[i];
                    let vmref: Option<&Tensor> = match &var.vhm {
                        Some(t) => Some(t),
                        None => None,
                    };
                    proof {
                        assert(self.vars@[i as int] == old(self).vars@[i as int]);
                        assert(var_inv(self.vars@[i as int], c.amsgrad));
                        assert(vm_view(vmref) == vm_view_opt(old(self).vhm_at(i as int)));
                    }
                    let res = update_var(
                        c.beta1,
                        c.beta2,
                        c.eps,
                        c.lr,
                        decay,
                        sm,
                        sv,
                        c.amsgrad,
                        first,
                        &var.var,
                        &var.first_moment,
                        &var.second_moment,
                        vmref,
                        g,
                    );
                    match res {
                        Some(o) => {
                            let (nth, nm, nv, nvm) = o;
                            let ghost nthv = nth@;
                            let ghost nmv = nm@;
                            let ghost nvv = nv@;
                            let ghost nvmv = nvm@;
                            let vhm = if c.amsgrad {
                                Some(nvm)
                            } else {
                                None
                            };
                            self.vars[i] = VarAdamW {
                                var: nth,
                                first_moment: nm,
                                second_moment: nv,
                                vhm,
                            };
                            proof {
                                assert(self.vars@ == snap.vars@.update(
                                    i as int,
                                    self.vars@[i as int],
                                ));
                                assert(self.theta_at(i as int) == nthv);
                                assert(self.m_at(i as int) == nmv);
                                assert(self.v_at(i as int) == nvv);
                                assert(vm_view_opt(self.vhm_at(i as int)) == (if c.amsgrad {
                                    nvmv
                                } else {
                                    Seq::<i64>::empty()
                                }));
                                assert(adamw_var_ok(old(self), i as int, g@));
                                assert(adamw_var_stepped(old(self), self, i as int, g@));
                                assert(var_inv(self.vars@[i as int], self.params.amsgrad));
                                assert forall|k: int|
                                    0 <= k < i implies adamw_var_handled(
                                    old(self),
                                    self,
                                    k,
                                    grads@,
                                ) by {
                                    assert(adamw_var_handled(old(self), &snap, k, grads@));
                                    assert(self.vars@[k] == snap.vars@[k]);
                                    assert(self.theta_at(k) == snap.theta_at(k));
                                    assert(self.m_at(k) == snap.m_at(k));
                                    assert(self.v_at(k) == snap.v_at(k));
                                    assert(self.vhm_at(k) == snap.vhm_at(k));
                                }
                                assert forall|k: int|
                                    0 <= k < self.vars@.len() implies var_inv(
                                    self.vars@[k],
                                    self.params.amsgrad,
                                ) by {
                                    if k != i {
                                        assert(self.vars@[k] == snap.vars@[k]);
                                        assert(var_inv(snap.vars@[k], snap.params.amsgrad));
                                    }
                                }
                            }
                        },
                        None => {
                            proof {
                                assert(!adamw_var_ok(old(self), i as int, g@));
                                assert(grad_at(grads@, i as int) is Some);
                                assert forall|k: int|
                                    i <= k < old(self).n_params() implies adamw_var_unchanged(
                                    old(self),
                                    self,
                                    k,
                                ) by {
                                    assert(self.vars@[k] == old(self).vars@[k]);
                                }
                            }
                            return Err(Error::Numeric);
                        },
                    }
                },
            }
            i = i + 1;
        }
        proof {
            assert forall|i2: int|
                0 <= i2 < old(self).n_params() && grad_at(grads@, i2) is Some implies adamw_var_ok(
                old(self),
                i2,
                grad_at(grads@, i2)->Some_0,
            ) by {
                assert(adamw_var_handled(old(self), self, i2, grads@));
            }
        }
        Ok(())
    }

    /// Number of parameters under optimization.
    pub fn param_count(&self) -> (n: usize)
        ensures
            n == self.n_params(),
    {
        self.vars.len()
    }

    /// Number of update calls taken so far.
    pub fn step_count(&self) -> (t: u64)
        ensures
            t == self.spec_step_t(),
    {
        self.step_t
    }

    /// Parameter `i`'s current value.
    pub fn param(&self, i: usize) -> (t: &Tensor)
        requires
            i < self.n_params(),
        ensures
            t@ == self.theta_at(i as int),
    {
        &self.vars[i].var
    }

    /// Parameter `i`'s first-moment buffer.
    pub fn first_moment(&self, i: usize) -> (t: &Tensor)
        requires
            i < self.n_params(),
        ensures
            t@ == self.m_at(i as int),
    {
        &self.vars[i].first_moment
    }

    /// Parameter `i`'s second-moment buffer.
    pub fn second_moment(&self, i: usize) -> (t: &Tensor)
        requires
            i < self.n_params(),
        ensures
            t@ == self.v_at(i as int),
    {
        &self.vars[i].second_moment
    }

    /// Parameter `i`'s running maximum of the bias-corrected second moment;
    /// present exactly when AMSGrad is on.
    pub fn max_second_moment(&self, i: usize) -> (t: Option<&Tensor>)
        requires
            i < self.n_params(),
        ensures
            match t {
                Some(t) => self.vhm_at(i as int) == Some(t@),
                None => self.vhm_at(i as int) is None,
            },
    {
        match &self.vars[i].vhm {
            Some(t) => Some(t),
            None => None,
        }
    }

    /// Read the configured learning rate; no validation is applied here.
    pub fn learning_rate(&self) -> (lr: i64)
        ensures
            lr == self.spec_params().lr,
    {
        self.params.lr
    }

    /// Overwrite the configured learning rate; no validation is applied
    /// here, and nothing but the rate changes.
    pub fn set_learning_rate(&mut self, lr: i64)
        ensures
            final(self).spec_params() == (ConfigAdamW { lr, ..old(self).spec_params() }),
            final(self).spec_step_t() == old(self).spec_step_t(),
            final(self).n_params() == old(self).n_params(),
            forall|i: int|
                0 <= i < old(self).n_params() ==> adamw_var_unchanged(old(self), final(self), i),
            old(self).inv() ==> final(self).inv(),
    {
        self.params.lr = lr;
        proof {
            assert(self.vars@ == old(self).vars@);
            assert forall|i: int|
                0 <= i < old(self).n_params() implies adamw_var_unchanged(
                old(self),
                self,
                i,
            ) by {
                assert(self.vars@[i] == old(self).vars@[i]);
            }
            if old(self).inv() {
                assert forall|i: int|
                    0 <= i < self.vars@.len() implies var_inv(
                    self.vars@[i],
                    self.params.amsgrad,
                ) by {
                    assert(var_inv(old(self).vars@[i], old(self).spec_params().amsgrad));
                }
            }
        }
    }
}

impl Optimizer for AdamW {
    open spec fn wf(&self) -> bool {
        self.inv()
    }

    open spec fn lr_spec(&self) -> i64 {
        self.spec_params().lr
    }

    open spec fn same_but_lr(&self, other: &Self) -> bool {
        &&& other.spec_step_t() == self.spec_step_t()
        &&& other.n_params() == self.n_params()
        &&& other.spec_params() == (ConfigAdamW {
            lr: other.spec_params().lr,
            ..self.spec_params()
        })
        &&& forall|i: int| 0 <= i < self.n_params() ==> adamw_var_unchanged(self, other, i)
    }

    fn learning_rate(&self) -> (lr: i64) {
        self.params.lr
    }

    fn set_learning_rate(&mut self, lr: i64) {
        self.params.lr = lr;
        proof {
            assert(self.vars@ == old(self).vars@);
            assert forall|i: int|
                0 <= i < self.vars@.len() implies var_inv(
                self.vars@[i],
                self.params.amsgrad,
            ) by {
                assert(var_inv(old(self).vars@[i], old(self).spec_params().amsgrad));
            }
            assert forall|i: int|
                0 <= i < old(self).n_params() implies adamw_var_unchanged(
                old(self),
                self,
                i,
            ) by {
                assert(self.vars@[i] == old(self).vars@[i]);
            }
        }
    }
}

/// With a zero gradient and zero moment state, one AdamW element update
/// leaves both moments (and the running maximum) at zero, and the parameter
/// changes only by the decoupled weight-decay factor `decay / SCALE`: it is
/// exactly unchanged when the decay factor is one (`decay == SCALE`, that is,
/// a zero decay product), and strictly shrunk toward zero when the decay
/// product is positive and below one on a nonzero parameter.
pub proof fn lemma_adamw_zero_gradient(
    b1: i64,
    b2: i64,
    eps: i64,
    lr: i64,
    decay: i64,
    sm: i64,
    sv: i64,
    first: bool,
    th: i64,
)
    requires
        0 <= b1 < SCALE,
        0 <= b2 < SCALE,
        eps > 0,
        i64_fits(fx_mul(th as int, decay as int)),
    ensures
        adamw_elem(
            b1 as int,
            b2 as int,
            eps as int,
            lr as int,
            decay as int,
            sm as int,
            sv as int,
            false,
            first,
            th as int,
            0,
            0,
            0,
            0,
        ) == Some((fx_mul(th as int, decay as int), 0int, 0int, 0int)),
        decay == SCALE ==> fx_mul(th as int, decay as int) == th as int,
        (0 < decay < SCALE && th > 0) ==> 0 <= fx_mul(th as int, decay as int) < th as int,
        (0 < decay < SCALE && th < 0) ==> (th as int) < fx_mul(th as int, decay as int) <= 0,
{
    let s = SCALE as int;
    vstd::arithmetic::div_mod::lemma_div_of0(s);
    vstd::arithmetic::div_mod::lemma_div_of0(eps as int);
    assert(fx_mul(b1 as int, 0) == 0);
    assert(fx_mul(s - b1 as int, 0) == 0);
    assert(fx_mul(0, 0) == 0);
    assert(fx_mul(b2 as int, 0) == 0);
    assert(fx_mul(0, sm as int) == 0);
    assert(fx_mul(0, sv as int) == 0);
    assert(fx_sqrt(0) == 0);
    assert(fx_div(0, 0 + eps as int) == 0);
    assert(fx_mul(0, lr as int) == 0);
    if decay == SCALE {
        if th >= 0 {
            assert(th as int * s >= 0) by (nonlinear_arith)
                requires
                    th as int >= 0,
                    s > 0,
            ;
            vstd::arithmetic::div_mod::lemma_div_by_multiple(th as int, s);
        } else {
            assert(-(th as int * s) == (-(th as int)) * s) by (nonlinear_arith);
            vstd::arithmetic::div_mod::lemma_div_by_multiple(-(th as int), s);
        }
    }
    if 0 < decay < SCALE && th > 0 {
        assert(th as int * (decay as int) >= 0) by (nonlinear_arith)
            requires
                th as int > 0,
                decay as int > 0,
        ;
        vstd::arithmetic::div_mod::lemma_div_pos_is_pos(th as int * (decay as int), s);
        assert(th as int * (decay as int) < s * (th as int)) by (nonlinear_arith)
            requires
                th as int > 0,
                0 < (decay as int) < s,
        ;
        vstd::arithmetic::div_mod::lemma_multiply_divide_lt(th as int * (decay as int), s, th as int);
    }
    if 0 < decay < SCALE && th < 0 {
        let thm = -(th as int);
        assert(th as int * (decay as int) < 0) by (nonlinear_arith)
            requires
                (th as int) < 0,
                decay as int > 0,
        ;
        assert(-(th as int * (decay as int)) == thm * (decay as int)) by (nonlinear_arith)
            requires
                thm == -(th as int),
        ;
        vstd::arithmetic::div_mod::lemma_div_pos_is_pos(thm * (decay as int), s);
        assert(thm * (decay as int) < s * thm) by (nonlinear_arith)
            requires
                thm > 0,
                0 < (decay as int) < s,
        ;
        vstd::arithmetic::div_mod::lemma_multiply_divide_lt(thm * (decay as int), s, thm);
    }
}

/// Under AMSGrad, past the first step, the running maximum of the
/// bias-corrected second moment never decreases across one element update.
pub proof fn lemma_amsgrad_vmax_monotone(
    b1: int,
    b2: int,
    eps: int,
    lr: int,
    decay: int,
    sm: int,
    sv: int,
    th: int,
    m: int,
    v: int,
    vm: int,
    g: int,
)
    requires
        adamw_elem(b1, b2, eps, lr, decay, sm, sv, true, false, th, m, v, vm, g) is Some,
    ensures
        (adamw_elem(b1, b2, eps, lr, decay, sm, sv, true, false, th, m, v, vm, g)->Some_0).3 >= vm,
{
}

/// A parameter with no entry in the gradient map is left bit for bit
/// unchanged by a step that handled it, whatever happened to the others.
pub proof fn lemma_adamw_skip_unchanged(
    pre: &AdamW,
    post: &AdamW,
    i: int,
    gm: Seq<Option<Seq<i64>>>,
)
    requires
        adamw_var_handled(pre, post, i, gm),
        grad_at(gm, i) is None,
    ensures
        adamw_var_unchanged(pre, post, i),
{
}

} // verus!

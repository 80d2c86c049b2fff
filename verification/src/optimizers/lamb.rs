//! LAMB: layer-wise adaptive moments. The per-step update keeps the same
//! moment statistics as AdamW, folds the weight decay into the update
//! direction instead of the parameter, and rescales each parameter's step by
//! a trust ratio: the parameter's norm over the update direction's norm,
//! clamped into a fixed band.

use vstd::prelude::*;

use crate::Error;
use crate::fixed::SCALE;
use crate::fixed::bias_scale;
use crate::fixed::bias_scale_spec;
use crate::fixed::div_fx;
use crate::fixed::fx_clamp;
use crate::fixed::fx_div;
use crate::fixed::fx_mul;
use crate::fixed::fx_sqrt;
use crate::fixed::i64_fits;
use crate::fixed::lemma_fx_mul_nonneg;
use crate::fixed::lemma_tdiv_nonneg;
use crate::fixed::mul_fx;
use crate::fixed::sqrt_fx;
use crate::fixed::tdiv;
use crate::ops::norm_l2;
use crate::ops::norm_l2_spec;
use crate::optimizers::GradientMap;
use crate::optimizers::Optimizer;
use crate::optimizers::grad_at;
use crate::tensor::Tensor;

verus! {

/// Lower clamp bound of the trust ratio (0.08 in fixed point).
pub const LAMB_RATIO_MIN: i64 = 80_000_000;

/// Upper clamp bound of the trust ratio (0.5 in fixed point).
pub const LAMB_RATIO_MAX: i64 = 500_000_000;

/// LAMB hyperparameters, in fixed point (units of `1 / SCALE`).
#[derive(Clone, Copy, Debug, PartialEq, Eq, Structural)]
pub struct ParamsLamb {
    pub lr: i64,
    pub beta1: i64,
    pub beta2: i64,
    pub eps: i64,
    pub weight_decay: i64,
}

impl ParamsLamb {
    /// The hyperparameter invariant: decay rates in `[0, 1)` and a positive
    /// numerical-stability offset.
    pub open spec fn valid(&self) -> bool {
        &&& 0 <= self.beta1 < SCALE
        &&& 0 <= self.beta2 < SCALE
        &&& self.eps > 0
    }
}

impl Default for ParamsLamb {
    /// The stock configuration: `lr = 0.001`, `beta1 = 0.9`, `beta2 = 0.999`,
    /// `eps = 1e-6`, `weight_decay = 0.01`.
    fn default() -> (c: Self)
        ensures
            c == (ParamsLamb {
                lr: 1_000_000,
                beta1: 900_000_000,
                beta2: 999_000_000,
                eps: 1_000,
                weight_decay: 10_000_000,
            }),
            c.valid(),
    {
        ParamsLamb {
            lr: 1_000_000,
            beta1: 900_000_000,
            beta2: 999_000_000,
            eps: 1_000,
            weight_decay: 10_000_000,
        }
    }
}

/// One parameter's state record: the parameter and its two moment buffers.
struct VarLamb {
    var: Tensor,
    first_moment: Tensor,
    second_moment: Tensor,
}

/// The trust ratio for a parameter norm `w` and update-direction norm `gn`:
/// their quotient clamped into `[0.08, 0.5]`. A zero direction norm, where
/// the quotient degenerates, yields the upper bound, the limit of the
/// quotient as the direction norm vanishes under a nonzero parameter norm.
pub open spec fn lamb_ratio(w: int, gn: int) -> int {
    if gn == 0 {
        LAMB_RATIO_MAX as int
    } else {
        fx_clamp(fx_div(w, gn), LAMB_RATIO_MIN as int, LAMB_RATIO_MAX as int)
    }
}

/// The trust ratio of two nonnegative norms; always within the clamp band,
/// however extreme the norms.
pub fn trust_ratio(w_norm: i64, g_norm: i64) -> (r: i64)
    requires
        w_norm >= 0,
        g_norm >= 0,
    ensures
        r as int == lamb_ratio(w_norm as int, g_norm as int),
        LAMB_RATIO_MIN <= r <= LAMB_RATIO_MAX,
{
    if g_norm == 0 {
        return LAMB_RATIO_MAX;
    }
    proof {
        assert(w_norm as int * (SCALE as int) <= i64::MAX as int * (SCALE as int))
            by (nonlinear_arith)
            requires
                0 <= w_norm as int <= i64::MAX as int,
                SCALE as int > 0,
        ;
    }
    let q: u128 = ((w_norm as u128) * (SCALE as u128)) / (g_norm as u128);
    proof {
        assert(q == tdiv(w_norm as int * (SCALE as int), g_norm as int));
    }
    if q > LAMB_RATIO_MAX as u128 {
        LAMB_RATIO_MAX
    } else if q < LAMB_RATIO_MIN as u128 {
        LAMB_RATIO_MIN
    } else {
        q as i64
    }
}

/// One element's moment-and-direction update: the new first and second
/// moment and the update-direction element `r`; `None` exactly when an
/// intermediate leaves the `i64` range. `lrwd` is `lr * weight_decay` and
/// `wdp` says whether the weight decay is positive (only then is the decay
/// term folded into the direction).
pub open spec fn lamb_elem_mv(
    b1: int,
    b2: int,
    eps: int,
    lrwd: int,
    sm: int,
    sv: int,
    wdp: bool,
    th: int,
    m: int,
    v: int,
    g: int,
) -> Option<(int, int, int)> {
    let nm_a = fx_mul(b1, m);
    let nm_b = fx_mul(SCALE as int - b1, g);
    let nm = nm_a + nm_b;
    let g2 = fx_mul(g, g);
    let nv_a = fx_mul(b2, v);
    let nv_b = fx_mul(SCALE as int - b2, g2);
    let nv = nv_a + nv_b;
    let m_hat = fx_mul(nm, sm);
    let v_hat = fx_mul(nv, sv);
    let root = fx_sqrt(v_hat);
    let denom = root + eps;
    let r0 = fx_div(m_hat, denom);
    let dterm = fx_mul(th, lrwd);
    let rr = if wdp {
        r0 + dterm
    } else {
        r0
    };
    if i64_fits(nm_a) && i64_fits(nm_b) && i64_fits(nm) && i64_fits(g2) && i64_fits(nv_a)
        && i64_fits(nv_b) && i64_fits(nv) && i64_fits(m_hat) && i64_fits(v_hat) && i64_fits(denom)
        && i64_fits(r0) && (wdp ==> i64_fits(dterm) && i64_fits(r0 + dterm)) {
        Some((nm, nv, rr))
    } else {
        None
    }
}

/// One element's parameter update: subtract the trust-ratio-scaled,
/// rate-scaled direction element; `None` exactly when an intermediate
/// leaves the `i64` range.
pub open spec fn lamb_elem_theta(lr: int, ratio: int, th: int, rr: int) -> Option<int> {
    let ru = fx_mul(ratio, rr);
    let stepv = fx_mul(ru, lr);
    let nth = th - stepv;
    if i64_fits(ru) && i64_fits(stepv) && i64_fits(nth) {
        Some(nth)
    } else {
        None
    }
}

/// The update-direction vector of one parameter, element by element
/// (meaningful where every element's update fits).
pub open spec fn lamb_rvec(
    b1: int,
    b2: int,
    eps: int,
    lrwd: int,
    sm: int,
    sv: int,
    wdp: bool,
    th: Seq<i64>,
    m: Seq<i64>,
    v: Seq<i64>,
    g: Seq<i64>,
) -> Seq<i64> {
    Seq::new(
        th.len(),
        |k: int|
            ((lamb_elem_mv(
                b1,
                b2,
                eps,
                lrwd,
                sm,
                sv,
                wdp,
                th[k] as int,
                m[k] as int,
                v[k] as int,
                g[k] as int,
            )->Some_0).2) as i64,
    )
}

/// Whether a whole parameter's LAMB update succeeds: gradient of the
/// parameter's shape, every element update fits, both norms fit, and every
/// parameter element's final step fits.
pub open spec fn lamb_param_ok(
    b1: int,
    b2: int,
    eps: int,
    lr: int,
    lrwd: int,
    sm: int,
    sv: int,
    wdp: bool,
    th: Seq<i64>,
    m: Seq<i64>,
    v: Seq<i64>,
    g: Seq<i64>,
) -> bool {
    let rv = lamb_rvec(b1, b2, eps, lrwd, sm, sv, wdp, th, m, v, g);
    &&& g.len() == th.len()
    &&& (forall|k: int|
        0 <= k < th.len() ==> lamb_elem_mv(
            b1,
            b2,
            eps,
            lrwd,
            sm,
            sv,
            wdp,
            th[k] as int,
            m[k] as int,
            v[k] as int,
            g[k] as int,
        ) is Some)
    &&& norm_l2_spec(th) is Some
    &&& norm_l2_spec(rv) is Some
    &&& (forall|k: int|
        #![trigger g[k]]
        0 <= k < th.len() ==> lamb_elem_theta(
            lr,
            lamb_ratio(norm_l2_spec(th)->Some_0, norm_l2_spec(rv)->Some_0),
            th[k] as int,
            rv[k] as int,
        ) is Some)
}

/// The new buffers of one parameter after a successful LAMB update.
pub open spec fn lamb_param_post(
    b1: int,
    b2: int,
    eps: int,
    lr: int,
    lrwd: int,
    sm: int,
    sv: int,
    wdp: bool,
    th: Seq<i64>,
    m: Seq<i64>,
    v: Seq<i64>,
    g: Seq<i64>,
    nth: Seq<i64>,
    nm: Seq<i64>,
    nv: Seq<i64>,
) -> bool {
    let rv = lamb_rvec(b1, b2, eps, lrwd, sm, sv, wdp, th, m, v, g);
    let ratio = lamb_ratio(norm_l2_spec(th)->Some_0, norm_l2_spec(rv)->Some_0);
    &&& nth.len() == th.len()
    &&& nm.len() == th.len()
    &&& nv.len() == th.len()
    &&& (forall|k: int|
        #![trigger nm[k]]
        #![trigger g[k]]
        0 <= k < th.len() ==> {
            let e = lamb_elem_mv(
                b1,
                b2,
                eps,
                lrwd,
                sm,
                sv,
                wdp,
                th[k] as int,
                m[k] as int,
                v[k] as int,
                g[k] as int,
            );
            &&& e is Some
            &&& (e->Some_0).0 == nm[k] as int
            &&& (e->Some_0).1 == nv[k] as int
        })
    &&& (forall|k: int|
        #![trigger nth[k]]
        0 <= k < th.len() ==> lamb_elem_theta(lr, ratio, th[k] as int, rv[k] as int) == Some(
            nth[k] as int,
        ))
}

/// One element's moment-and-direction update, checked; `None` exactly when
/// the specification-level update is `None`.
fn elem_mv_update(
    b1: i64,
    b2: i64,
    eps: i64,
    lrwd: i64,
    sm: i64,
    sv: i64,
    wdp: bool,
    th: i64,
    m: i64,
    v: i64,
    g: i64,
) -> (r: Option<(i64, i64, i64)>)
    requires
        0 <= b1 < SCALE,
        0 <= b2 < SCALE,
        eps > 0,
        v >= 0,
        sv >= 0,
    ensures
        match r {
            Some(o) => {
                &&& lamb_elem_mv(
                    b1 as int,
                    b2 as int,
                    eps as int,
                    lrwd as int,
                    sm as int,
                    sv as int,
                    wdp,
                    th as int,
                    m as int,
                    v as int,
                    g as int,
                ) == Some((o.0 as int, o.1 as int, o.2 as int))
                &&& o.1 >= 0
            },
            None => lamb_elem_mv(
                b1 as int,
                b2 as int,
                eps as int,
                lrwd as int,
                sm as int,
                sv as int,
                wdp,
                th as int,
                m as int,
                v as int,
                g as int,
            ) is None,
        },
{
    let nm_a = match mul_fx(b1, m) {
        Some(x) => x,
        None => {
            return None;
        },
    };
    let nm_b = match mul_fx(SCALE - b1, g) {
        Some(x) => x,
        None => {
            return None;
        },
    };
    let nm = match nm_a.checked_add(nm_b) {
        Some(x) => x,
        None => {
            return None;
        },
    };
    let g2 = match mul_fx(g, g) {
        Some(x) => x,
        None => {
            return None;
        },
    };
    proof {
        assert(g as int * (g as int) >= 0) by (nonlinear_arith);
        lemma_tdiv_nonneg(g as int * (g as int), SCALE as int);
        lemma_fx_mul_nonneg(b2 as int, v as int);
        lemma_fx_mul_nonneg(SCALE as int - b2, fx_mul(g as int, g as int));
    }
    let nv_a = match mul_fx(b2, v) {
        Some(x) => x,
        None => {
            return None;
        },
    };
    let nv_b = match mul_fx(SCALE - b2, g2) {
        Some(x) => x,
        None => {
            return None;
        },
    };
    let nv = match nv_a.checked_add(nv_b) {
        Some(x) => x,
        None => {
            return None;
        },
    };
    let m_hat = match mul_fx(nm, sm) {
        Some(x) => x,
        None => {
            return None;
        },
    };
    proof {
        lemma_fx_mul_nonneg(nv as int, sv as int);
    }
    let v_hat = match mul_fx(nv, sv) {
        Some(x) => x,
        None => {
            return None;
        },
    };
    let root = sqrt_fx(v_hat);
    let denom = match root.checked_add(eps) {
        Some(x) => x,
        None => {
            return None;
        },
    };
    let r0 = match div_fx(m_hat, denom) {
        Some(x) => x,
        None => {
            return None;
        },
    };
    let rr: i64 = if wdp {
        let dterm = match mul_fx(th, lrwd) {
            Some(x) => x,
            None => {
                return None;
            },
        };
        match r0.checked_add(dterm) {
            Some(x) => x,
            None => {
                return None;
            },
        }
    } else {
        r0
    };
    Some((nm, nv, rr))
}

/// Update one parameter's buffers against its gradient; `None` exactly when
/// the shapes mismatch or some intermediate does not fit.
fn update_var_lamb(
    b1: i64,
    b2: i64,
    eps: i64,
    lr: i64,
    lrwd: i64,
    sm: i64,
    sv: i64,
    wdp: bool,
    th: &Tensor,
    m: &Tensor,
    v: &Tensor,
    g: &Tensor,
) -> (r: Option<(Tensor, Tensor, Tensor)>)
    requires
        0 <= b1 < SCALE,
        0 <= b2 < SCALE,
        eps > 0,
        sv >= 0,
        m@.len() == th@.len(),
        v@.len() == th@.len(),
        forall|k: int| 0 <= k < v@.len() ==> v@[k] >= 0,
    ensures
        match r {
            Some(o) => {
                &&& lamb_param_ok(
                    b1 as int,
                    b2 as int,
                    eps as int,
                    lr as int,
                    lrwd as int,
                    sm as int,
                    sv as int,
                    wdp,
                    th@,
                    m@,
                    v@,
                    g@,
                )
                &&& lamb_param_post(
                    b1 as int,
                    b2 as int,
                    eps as int,
                    lr as int,
                    lrwd as int,
                    sm as int,
                    sv as int,
                    wdp,
                    th@,
                    m@,
                    v@,
                    g@,
                    o.0@,
                    o.1@,
                    o.2@,
                )
                &&& forall|k: int| 0 <= k < o.2@.len() ==> o.2@[k] >= 0
            },
            None => !lamb_param_ok(
                b1 as int,
                b2 as int,
                eps as int,
                lr as int,
                lrwd as int,
                sm as int,
                sv as int,
                wdp,
                th@,
                m@,
                v@,
                g@,
            ),
        },
{
    let n = th.len();
    if g.len() != n {
        return None;
    }
    let mut nm: Vec<i64> = Vec::new();
    let mut nv: Vec<i64> = Vec::new();
    let mut rv: Vec<i64> = Vec::new();
    let mut k: usize = 0;
    while k < n
        invariant
            0 <= b1 < SCALE,
            0 <= b2 < SCALE,
            eps > 0,
            sv >= 0,
            k <= n,
            n == th@.len(),
            m@.len() == n,
            v@.len() == n,
            g@.len() == n,
            forall|j: int| 0 <= j < n ==> v@[j] >= 0,
            nm@.len() == k,
            nv@.len() == k,
            rv@.len() == k,
            forall|j: int|
                #![trigger g@[j]]
                0 <= j < k ==> {
                    let e = lamb_elem_mv(
                        b1 as int,
                        b2 as int,
                        eps as int,
                        lrwd as int,
                        sm as int,
                        sv as int,
                        wdp,
                        th@[j] as int,
                        m@[j] as int,
                        v@[j] as int,
                        g@[j] as int,
                    );
                    &&& e is Some
                    &&& (e->Some_0).0 == nm@[j] as int
                    &&& (e->Some_0).1 == nv@[j] as int
                    &&& (e->Some_0).2 == rv@[j] as int
                },
            forall|j: int| 0 <= j < k ==> nv@[j] >= 0,
        decreases n - k,
    {
        let e = elem_mv_update(b1, b2, eps, lrwd, sm, sv, wdp, th.get(k), m.get(k), v.get(k), g.get(k));
        match e {
            Some(o) => {
                nm.push(o.0);
                nv.push(o.1);
                rv.push(o.2);
            },
            None => {
                return None;
            },
        }
        k = k + 1;
    }
    proof {
        assert(rv@ =~= lamb_rvec(
            b1 as int,
            b2 as int,
            eps as int,
            lrwd as int,
            sm as int,
            sv as int,
            wdp,
            th@,
            m@,
            v@,
            g@,
        ));
    }
    let w_norm = match norm_l2(th) {
        Ok(x) => x,
        Err(_) => {
            return None;
        },
    };
    let rt = Tensor::new(rv);
    let g_norm = match norm_l2(&rt) {
        Ok(x) => x,
        Err(_) => {
            return None;
        },
    };
    let ratio = trust_ratio(w_norm, g_norm);
    let mut nth: Vec<i64> = Vec::new();
    let ghost rvs0 = lamb_rvec(
        b1 as int,
        b2 as int,
        eps as int,
        lrwd as int,
        sm as int,
        sv as int,
        wdp,
        th@,
        m@,
        v@,
        g@,
    );
    let ghost ratio_s = lamb_ratio(norm_l2_spec(th@)->Some_0, norm_l2_spec(rt@)->Some_0);
    let mut k2: usize = 0;
    while k2 < n
        invariant
            k2 <= n,
            n == th@.len(),
            rt@.len() == n,
            rt@ == rvs0,
            rvs0 == lamb_rvec(
                b1 as int,
                b2 as int,
                eps as int,
                lrwd as int,
                sm as int,
                sv as int,
                wdp,
                th@,
                m@,
                v@,
                g@,
            ),
            nth@.len() == k2,
            ratio as int == ratio_s,
            ratio_s == lamb_ratio(norm_l2_spec(th@)->Some_0, norm_l2_spec(rvs0)->Some_0),
            forall|j: int|
                #![trigger nth@[j]]
                0 <= j < k2 ==> lamb_elem_theta(lr as int, ratio_s, th@[j] as int, rt@[j] as int)
                    == Some(nth@[j] as int),
        decreases n - k2,
    {
        let ghost rvs = rvs0;
        let ru = match mul_fx(ratio, rt.get(k2)) {
            Some(x) => x,
            None => {
                proof {
                    assert(lamb_elem_theta(
                        lr as int,
                        ratio_s,
                        th@[k2 as int] as int,
                        rvs[k2 as int] as int,
                    ) is None);
                }
                return None;
            },
        };
        let stepv = match mul_fx(ru, lr) {
            Some(x) => x,
            None => {
                proof {
                    assert(lamb_elem_theta(
                        lr as int,
                        ratio_s,
                        th@[k2 as int] as int,
                        rvs[k2 as int] as int,
                    ) is None);
                }
                return None;
            },
        };
        let nthk = match th.get(k2).checked_sub(stepv) {
            Some(x) => x,
            None => {
                proof {
                    assert(lamb_elem_theta(
                        lr as int,
                        ratio_s,
                        th@[k2 as int] as int,
                        rvs[k2 as int] as int,
                    ) is None);
                }
                return None;
            },
        };
        nth.push(nthk);
        k2 = k2 + 1;
    }
    proof {
        let rvs = lamb_rvec(
            b1 as int,
            b2 as int,
            eps as int,
            lrwd as int,
            sm as int,
            sv as int,
            wdp,
            th@,
            m@,
            v@,
            g@,
        );
        assert forall|k: int|
            0 <= k < th@.len() implies lamb_elem_theta(
            lr as int,
            ratio_s,
            th@[k] as int,
            rvs[k] as int,
        ) == Some(nth@[k] as int) by {
            assert(lamb_elem_theta(lr as int, ratio_s, th@[k] as int, rt@[k] as int) == Some(
                nth@[k] as int,
            ));
        }
    }
    Some((Tensor::new(nth), Tensor::new(nm), Tensor::new(nv)))
}

/// LAMB over a list of parameters, with one state record per parameter.
pub struct Lamb {
    vars: Vec<VarLamb>,
    step_t: u64,
    params: ParamsLamb,
}

/// The per-record part of the optimizer invariant.
spec fn lamb_var_inv(v: VarLamb) -> bool {
    &&& v.first_moment@.len() == v.var@.len()
    &&& v.second_moment@.len() == v.var@.len()
    &&& (forall|k: int| 0 <= k < v.second_moment@.len() ==> v.second_moment@[k] >= 0)
}

/// A freshly built state record: the parameter itself and zero moments.
spec fn lamb_var_fresh(v: VarLamb, t: Tensor) -> bool {
    &&& v.var@ == t@
    &&& v.first_moment@.len() == t@.len()
    &&& v.second_moment@.len() == t@.len()
    &&& (forall|k: int| 0 <= k < t@.len() ==> v.first_moment@[k] == 0i64)
    &&& (forall|k: int| 0 <= k < t@.len() ==> v.second_moment@[k] == 0i64)
}

impl Lamb {
    /// Number of parameters under optimization.
    pub closed spec fn n_params(&self) -> nat {
        self.vars@.len()
    }

    /// The hyperparameter configuration.
    pub closed spec fn spec_params(&self) -> ParamsLamb {
        self.params
    }

    /// Number of update calls taken so far.
    pub closed spec fn spec_step_t(&self) -> u64 {
        self.step_t
    }

    /// Parameter `i`'s current value.
    pub closed spec fn theta_at(&self, i: int) -> Seq<i64> {
        self.vars@[i].var@
    }

    /// Parameter `i`'s first-moment buffer.
    pub closed spec fn m_at(&self, i: int) -> Seq<i64> {
        self.vars@[i].first_moment@
    }

    /// Parameter `i`'s second-moment buffer.
    pub closed spec fn v_at(&self, i: int) -> Seq<i64> {
        self.vars@[i].second_moment@
    }

    /// Internal consistency: valid hyperparameters and, per parameter,
    /// moment buffers of the parameter's shape with nonnegative second
    /// moments.
    pub closed spec fn inv(&self) -> bool {
        &&& self.params.valid()
        &&& forall|i: int| 0 <= i < self.n_params() ==> lamb_var_inv(#[trigger] self.vars@[i])
    }
}

/// Parameter `i` carries the same value and optimizer state in `post` as in
/// `pre`.
pub open spec fn lamb_var_unchanged(pre: &Lamb, post: &Lamb, i: int) -> bool {
    &&& post.theta_at(i) == pre.theta_at(i)
    &&& post.m_at(i) == pre.m_at(i)
    &&& post.v_at(i) == pre.v_at(i)
}

/// Whether the pre-loop scalar of a step fits: the decay product
/// `lr * weight_decay`, needed only when the weight decay is positive.
pub open spec fn lamb_pre_ok(c: ParamsLamb) -> bool {
    c.weight_decay > 0 ==> i64_fits(fx_mul(c.lr as int, c.weight_decay as int))
}

/// The decay product a step folds into the update direction: zero when the
/// weight decay is not positive (it is then never read).
pub open spec fn lamb_lrwd(c: ParamsLamb) -> int {
    if c.weight_decay > 0 {
        fx_mul(c.lr as int, c.weight_decay as int)
    } else {
        0
    }
}

/// Parameter `i`'s update against gradient `g` succeeds, for the step that
/// takes `pre` from step count `pre.spec_step_t()` to the next one.
pub open spec fn lamb_var_ok(pre: &Lamb, i: int, g: Seq<i64>) -> bool {
    let c = pre.spec_params();
    let t = (pre.spec_step_t() + 1) as nat;
    lamb_param_ok(
        c.beta1 as int,
        c.beta2 as int,
        c.eps as int,
        c.lr as int,
        lamb_lrwd(c),
        bias_scale_spec(c.beta1 as int, t),
        bias_scale_spec(c.beta2 as int, t),
        c.weight_decay > 0,
        pre.theta_at(i),
        pre.m_at(i),
        pre.v_at(i),
        g,
    )
}

/// Parameter `i` in `post` holds exactly the LAMB update of its state in
/// `pre` against gradient `g`.
pub open spec fn lamb_var_stepped(pre: &Lamb, post: &Lamb, i: int, g: Seq<i64>) -> bool {
    let c = pre.spec_params();
    let t = (pre.spec_step_t() + 1) as nat;
    lamb_param_post(
        c.beta1 as int,
        c.beta2 as int,
        c.eps as int,
        c.lr as int,
        lamb_lrwd(c),
        bias_scale_spec(c.beta1 as int, t),
        bias_scale_spec(c.beta2 as int, t),
        c.weight_decay > 0,
        pre.theta_at(i),
        pre.m_at(i),
        pre.v_at(i),
        g,
        post.theta_at(i),
        post.m_at(i),
        post.v_at(i),
    )
}

/// Parameter `i` was handled by a step: updated when the gradient map holds
/// an entry for it, left untouched otherwise.
pub open spec fn lamb_var_handled(
    pre: &Lamb,
    post: &Lamb,
    i: int,
    gm: Seq<Option<Seq<i64>>>,
) -> bool {
    match grad_at(gm, i) {
        None => lamb_var_unchanged(pre, post, i),
        Some(g) => lamb_var_ok(pre, i, g) && lamb_var_stepped(pre, post, i, g),
    }
}

/// A whole step succeeds: the pre-loop scalar fits and every parameter with
/// a gradient entry updates without leaving the fixed-point range.
pub open spec fn lamb_all_ok(pre: &Lamb, gm: Seq<Option<Seq<i64>>>) -> bool {
    &&& lamb_pre_ok(pre.spec_params())
    &&& forall|i: int|
        #![trigger grad_at(gm, i)]
        0 <= i < pre.n_params() ==> (grad_at(gm, i) matches Some(g) ==> lamb_var_ok(pre, i, g))
}

impl Lamb {
    /// Build a LAMB optimizer over `vars`: one state record per parameter,
    /// in the order given, with zero-initialized moment buffers.
    pub fn new(vars: Vec<Tensor>, params: ParamsLamb) -> (r: Result<Lamb, Error>)
        requires
            params.valid(),
        ensures
            r matches Ok(o) && {
                &&& o.inv()
                &&& o.spec_step_t() == 0
                &&& o.spec_params() == params
                &&& o.n_params() == vars@.len()
                &&& forall|i: int|
                    0 <= i < vars@.len() ==> {
                        &&& o.theta_at(i) == vars@[i]@
                        &&& o.m_at(i).len() == vars@[i]@.len()
                        &&& o.v_at(i).len() == vars@[i]@.len()
                        &&& (forall|k: int| 0 <= k < o.m_at(i).len() ==> o.m_at(i)[k] == 0i64)
                        &&& (forall|k: int| 0 <= k < o.v_at(i).len() ==> o.v_at(i)[k] == 0i64)
                    }
            },
    {
        let ghost orig: Seq<Tensor> = vars@;
        let mut rest = vars;
        let mut out: Vec<VarLamb> = Vec::new();
        while rest.len() > 0
            invariant
                out@.len() + rest@.len() == orig.len(),
                rest@ =~= orig.skip(out@.len() as int),
                forall|i: int|
                    0 <= i < out@.len() ==> lamb_var_fresh(#[trigger] out@[i], orig[i]),
            decreases rest@.len(),
        {
            let ghost lpre = out@.len() as int;
            proof {
                assert(orig.skip(lpre)[0] == orig[lpre]);
            }
            let t = rest.remove(0);
            proof {
                assert(t == orig[lpre]);
            }
            let n = t.len();
            let nvar = VarLamb {
                var: t,
                first_moment: Tensor::zeros(n),
                second_moment: Tensor::zeros(n),
            };
            let ghost nv0 = nvar;
            let ghost outpre = out@;
            out.push(nvar);
            proof {
                assert(out@ == outpre.push(nv0));
                assert(rest@ =~= orig.skip(out@.len() as int));
                assert(lamb_var_fresh(nv0, orig[lpre]));
                assert forall|i: int|
                    0 <= i < out@.len() implies lamb_var_fresh(#[trigger] out@[i], orig[i]) by {
                    if i < lpre {
                        assert(out@[i] == outpre[i]);
                    } else {
                        assert(out@[i] == nv0);
                    }
                }
            }
        }
        let o = Lamb { vars: out, step_t: 0, params };
        proof {
            assert(o.vars@.len() == orig.len());
            assert forall|i: int|
                0 <= i < vars@.len() implies {
                &&& o.theta_at(i) == vars@[i]@
                &&& o.m_at(i).len() == vars@[i]@.len()
                &&& o.v_at(i).len() == vars@[i]@.len()
                &&& (forall|k: int| 0 <= k < o.m_at(i).len() ==> o.m_at(i)[k] == 0i64)
                &&& (forall|k: int| 0 <= k < o.v_at(i).len() ==> o.v_at(i)[k] == 0i64)
            } by {
                assert(lamb_var_fresh(o.vars@[i], orig[i]));
            }
            assert forall|i: int|
                0 <= i < o.n_params() implies lamb_var_inv(#[trigger] o.vars@[i]) by {
                assert(lamb_var_fresh(o.vars@[i], orig[i]));
            }
        }
        Ok(o)
    }

    /// Build a LAMB optimizer with the stock hyperparameters and the given
    /// learning rate.
    pub fn new_lr(vars: Vec<Tensor>, lr: i64) -> (r: Result<Lamb, Error>)
        ensures
            r matches Ok(o) && {
                &&& o.inv()
                &&& o.spec_step_t() == 0
                &&& o.spec_params() == (ParamsLamb { lr, ..ParamsLamb {
                    lr: 1_000_000,
                    beta1: 900_000_000,
                    beta2: 999_000_000,
                    eps: 1_000,
                    weight_decay: 10_000_000,
                } })
                &&& o.n_params() == vars@.len()
                &&& forall|i: int|
                    0 <= i < vars@.len() ==> {
                        &&& o.theta_at(i) == vars@[i]@
                        &&& o.m_at(i).len() == vars@[i]@.len()
                        &&& o.v_at(i).len() == vars@[i]@.len()
                        &&& (forall|k: int| 0 <= k < o.m_at(i).len() ==> o.m_at(i)[k] == 0i64)
                        &&& (forall|k: int| 0 <= k < o.v_at(i).len() ==> o.v_at(i)[k] == 0i64)
                    }
            },
    {
        let mut params = ParamsLamb::default();
        params.lr = lr;
        Lamb::new(vars, params)
    }

    /// One optimizer update against a gradient map. Increments the step
    /// counter, then updates every parameter that has a gradient entry:
    /// moments decay toward the new gradient and are bias-corrected, the
    /// weight decay (when positive) is folded into the update direction, and
    /// the parameter moves by the direction scaled with the learning rate
    /// and the clamped trust ratio. Parameters without an entry are skipped,
    /// bit for bit. On a numeric failure the parameters already updated in
    /// the same call keep their new values; the failing one and all later
    /// ones are untouched. The backward pass that produces the gradient map
    /// from a loss belongs to the external training loop.
    pub fn step(&mut self, grads: &GradientMap) -> (r: Result<(), Error>)
        requires
            old(self).inv(),
            old(self).spec_step_t() < u64::MAX,
        ensures
            final(self).inv(),
            final(self).spec_step_t() == old(self).spec_step_t() + 1,
            final(self).spec_params() == old(self).spec_params(),
            final(self).n_params() == old(self).n_params(),
            (r matches Ok(())) <==> lamb_all_ok(old(self), grads@),
            r matches Ok(()) ==> forall|i: int|
                0 <= i < old(self).n_params() ==> lamb_var_handled(old(self), final(self), i, grads@),
            r matches Err(e) ==> e == Error::Numeric,
            (r is Err && !lamb_pre_ok(old(self).spec_params())) ==> forall|i: int|
                0 <= i < old(self).n_params() ==> lamb_var_unchanged(old(self), final(self), i),
            (r is Err && lamb_pre_ok(old(self).spec_params())) ==> exists|j: int|
                {
                    &&& 0 <= j < old(self).n_params()
                    &&& #[trigger] grad_at(grads@, j) is Some
                    &&& (grad_at(grads@, j) matches Some(g) && !lamb_var_ok(old(self), j, g))
                    &&& (forall|i: int|
                        0 <= i < j ==> lamb_var_handled(old(self), final(self), i, grads@))
                    &&& (forall|i: int|
                        j <= i < old(self).n_params() ==> lamb_var_unchanged(
                            old(self),
                            final(self),
                            i,
                        ))
                },
    {
        self.step_t = self.step_t + 1;
        proof {
            assert(self.vars@ == old(self).vars@);
            assert forall|k: int|
                0 <= k < self.vars@.len() implies lamb_var_inv(#[trigger] self.vars@[k]) by {
                assert(lamb_var_inv(old(self).vars@[k]));
            }
            assert forall|k: int|
                0 <= k < old(self).n_params() implies lamb_var_unchanged(old(self), self, k) by {
                assert(self.vars@[k] == old(self).vars@[k]);
            }
        }
        let c = self.params;
        let wdp = c.weight_decay > 0;
        let lrwd: i64 = if wdp {
            match mul_fx(c.lr, c.weight_decay) {
                Some(x) => x,
                None => {
                    return Err(Error::Numeric);
                },
            }
        } else {
            0
        };
        let sm = bias_scale(c.beta1, self.step_t);
        let sv = bias_scale(c.beta2, self.step_t);
        let n = self.vars.len();
        let mut i: usize = 0;
        while i < n
            invariant
                i <= n,
                n == self.vars@.len(),
                n == old(self).n_params(),
                self.step_t == old(self).spec_step_t() + 1,
                self.params == old(self).spec_params(),
                c == old(self).spec_params(),
                c.valid(),
                wdp == (c.weight_decay > 0),
                lrwd as int == lamb_lrwd(c),
                sm as int == bias_scale_spec(c.beta1 as int, self.step_t as nat),
                sv as int == bias_scale_spec(c.beta2 as int, self.step_t as nat),
                sv >= 0,
                forall|k: int| 0 <= k < i ==> lamb_var_handled(old(self), self, k, grads@),
                forall|k: int| i <= k < n ==> self.vars@[k] == old(self).vars@[k],
                self.inv(),
            decreases n - i,
        {
            let ghost snap = *self;
            let gi = grads.get(i);
            match gi {
                None => {
                    proof {
                        assert(grad_at(grads@, i as int) is None);
                        assert(lamb_var_unchanged(old(self), self, i as int));
                    }
                },
                Some(g) => {
                    let var = &self.vars[i];
                    proof {
                        assert(self.vars@[i as int] == old(self).vars@[i as int]);
                        assert(lamb_var_inv(self.vars@[i as int]));
                    }
                    let res = update_var_lamb(
                        c.beta1,
                        c.beta2,
                        c.eps,
                        c.lr,
                        lrwd,
                        sm,
                        sv,
                        wdp,
                        &var.var,
                        &var.first_moment,
                        &var.second_moment,
                        g,
                    );
                    match res {
                        Some(o) => {
                            let (nth, nm, nv) = o;
                            let ghost nthv = nth@;
                            let ghost nmv = nm@;
                            let ghost nvv = nv@;
                            self.vars[i] = VarLamb { var: nth, first_moment: nm, second_moment: nv };
                            proof {
                                assert(self.vars@ == snap.vars@.update(
                                    i as int,
                                    self.vars@[i as int],
                                ));
                                assert(self.theta_at(i as int) == nthv);
                                assert(self.m_at(i as int) == nmv);
                                assert(self.v_at(i as int) == nvv);
                                assert(lamb_var_ok(old(self), i as int, g@));
                                assert(lamb_var_stepped(old(self), self, i as int, g@));
                                assert(lamb_var_inv(self.vars@[i as int]));
                                assert forall|k: int|
                                    0 <= k < i implies lamb_var_handled(
                                    old(self),
                                    self,
                                    k,
                                    grads@,
                                ) by {
                                    assert(lamb_var_handled(old(self), &snap, k, grads@));
                                    assert(self.vars@[k] == snap.vars@[k]);
                                    assert(self.theta_at(k) == snap.theta_at(k));
                                    assert(self.m_at(k) == snap.m_at(k));
                                    assert(self.v_at(k) == snap.v_at(k));
                                }
                                assert forall|k: int|
                                    0 <= k < self.vars@.len() implies lamb_var_inv(
                                    #[trigger] self.vars@[k],
                                ) by {
                                    if k != i {
                                        assert(self.vars@[k] == snap.vars@[k]);
                                        assert(lamb_var_inv(snap.vars@[k]));
                                    }
                                }
                            }
                        },
                        None => {
                            proof {
                                assert(!lamb_var_ok(old(self), i as int, g@));
                                assert(grad_at(grads@, i as int) is Some);
                                assert forall|k: int|
                                    i <= k < old(self).n_params() implies lamb_var_unchanged(
                                    old(self),
                                    self,
                                    k,
                                ) by {
                                    assert(self.vars@[k] == old(self).vars@[k]);
                                }
                            }
                            return Err(Error::Numeric);
                        },
                    }
                },
            }
            i = i + 1;
        }
        proof {
            assert forall|i2: int|
                0 <= i2 < old(self).n_params() && grad_at(grads@, i2) is Some implies lamb_var_ok(
                old(self),
                i2,
                grad_at(grads@, i2)->Some_0,
            ) by {
                assert(lamb_var_handled(old(self), self, i2, grads@));
            }
        }
        Ok(())
    }

    /// Number of parameters under optimization.
    pub fn param_count(&self) -> (n: usize)
        ensures
            n == self.n_params(),
    {
        self.vars.len()
    }

    /// Number of update calls taken so far.
    pub fn step_count(&self) -> (t: u64)
        ensures
            t == self.spec_step_t(),
    {
        self.step_t
    }

    /// Parameter `i`'s current value.
    pub fn param(&self, i: usize) -> (t: &Tensor)
        requires
            i < self.n_params(),
        ensures
            t@ == self.theta_at(i as int),
    {
        &self.vars[i].var
    }

    /// Parameter `i`'s first-moment buffer.
    pub fn first_moment(&self, i: usize) -> (t: &Tensor)
        requires
            i < self.n_params(),
        ensures
            t@ == self.m_at(i as int),
    {
        &self.vars[i].first_moment
    }

    /// Parameter `i`'s second-moment buffer.
    pub fn second_moment(&self, i: usize) -> (t: &Tensor)
        requires
            i < self.n_params(),
        ensures
            t@ == self.v_at(i as int),
    {
        &self.vars[i].second_moment
    }

    /// Read the configured learning rate; no validation is applied here.
    pub fn get_lr(&self) -> (lr: i64)
        ensures
            lr == self.spec_params().lr,
    {
        self.params.lr
    }

    /// Overwrite the configured learning rate; no validation is applied
    /// here, and nothing but the rate changes.
    pub fn set_lr(&mut self, lr: i64)
        ensures
            final(self).spec_params() == (ParamsLamb { lr, ..old(self).spec_params() }),
            final(self).spec_step_t() == old(self).spec_step_t(),
            final(self).n_params() == old(self).n_params(),
            forall|i: int|
                0 <= i < old(self).n_params() ==> lamb_var_unchanged(old(self), final(self), i),
            old(self).inv() ==> final(self).inv(),
    {
        self.params.lr = lr;
        proof {
            assert(self.vars@ == old(self).vars@);
            assert forall|i: int|
                0 <= i < old(self).n_params() implies lamb_var_unchanged(old(self), self, i) by {
                assert(self.vars@[i] == old(self).vars@[i]);
            }
            if old(self).inv() {
                assert forall|i: int|
                    0 <= i < self.vars@.len() implies lamb_var_inv(#[trigger] self.vars@[i]) by {
                    assert(lamb_var_inv(old(self).vars@[i]));
                }
            }
        }
    }
}

impl Optimizer for Lamb {
    open spec fn wf(&self) -> bool {
        self.inv()
    }

    open spec fn lr_spec(&self) -> i64 {
        self.spec_params().lr
    }

    open spec fn same_but_lr(&self, other: &Self) -> bool {
        &&& other.spec_step_t() == self.spec_step_t()
        &&& other.n_params() == self.n_params()
        &&& other.spec_params() == (ParamsLamb {
            lr: other.spec_params().lr,
            ..self.spec_params()
        })
        &&& forall|i: int| 0 <= i < self.n_params() ==> lamb_var_unchanged(self, other, i)
    }

    fn learning_rate(&self) -> (lr: i64) {
        self.params.lr
    }

    fn set_learning_rate(&mut self, lr: i64) {
        self.params.lr = lr;
        proof {
            assert(self.vars@ == old(self).vars@);
            assert forall|i: int|
                0 <= i < self.vars@.len() implies lamb_var_inv(#[trigger] self.vars@[i]) by {
                assert(lamb_var_inv(old(self).vars@[i]));
            }
            assert forall|i: int|
                0 <= i < old(self).n_params() implies lamb_var_unchanged(
                old(self),
                self,
                i,
            ) by {
                assert(self.vars@[i] == old(self).vars@[i]);
            }
        }
    }
}

/// A parameter with no entry in the gradient map is left bit for bit
/// unchanged by a step that handled it, whatever happened to the others.
pub proof fn lemma_lamb_skip_unchanged(pre: &Lamb, post: &Lamb, i: int, gm: Seq<Option<Seq<i64>>>)
    requires
        lamb_var_handled(pre, post, i, gm),
        grad_at(gm, i) is None,
    ensures
        lamb_var_unchanged(pre, post, i),
{
}

} // verus!

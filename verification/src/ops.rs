//! Numeric helpers over tensors: element-wise clamping and the L2 norm, the
//! two pure operations the optimizer core needs beyond its own update loops.

use vstd::prelude::*;

use crate::Error;
use crate::fixed::SCALE;
use crate::fixed::clamp_i64;
use crate::fixed::fx_clamp;
use crate::fixed::fx_mul;
use crate::fixed::fx_sqrt;
use crate::fixed::i64_fits;
use crate::fixed::mul_fx;
use crate::fixed::sqrt_fx;
use crate::tensor::Tensor;

verus! {

/// Sum of the fixed-point squares of the first `n` elements of `s`; `None`
/// when a square or a partial sum leaves the `i64` range.
pub open spec fn sum_sq_to(s: Seq<i64>, n: int) -> Option<int>
    decreases n,
{
    if n <= 0 {
        Some(0)
    } else {
        match sum_sq_to(s, n - 1) {
            None => None,
            Some(acc) => {
                let sq = fx_mul(s[n - 1] as int, s[n - 1] as int);
                if i64_fits(sq) && i64_fits(acc + sq) {
                    Some(acc + sq)
                } else {
                    None
                }
            },
        }
    }
}

/// The L2 norm of a tensor's elements, as a fixed-point value: the integer
/// square root of `SCALE` times the sum of squares.
pub open spec fn norm_l2_spec(s: Seq<i64>) -> Option<int> {
    match sum_sq_to(s, s.len() as int) {
        None => None,
        Some(t) => Some(fx_sqrt(t)),
    }
}

proof fn lemma_sum_sq_nonneg(s: Seq<i64>, n: int)
    requires
        sum_sq_to(s, n) is Some,
    ensures
        sum_sq_to(s, n)->Some_0 >= 0,
    decreases n,
{
    if n > 0 {
        lemma_sum_sq_nonneg(s, n - 1);
        let e = s[n - 1] as int;
        assert(e * e >= 0) by (nonlinear_arith);
        assert(fx_mul(e, e) >= 0);
    }
}

proof fn lemma_sum_sq_none_stays(s: Seq<i64>, n1: int, n2: int)
    requires
        sum_sq_to(s, n1) is None,
        n1 <= n2,
    ensures
        sum_sq_to(s, n2) is None,
    decreases n2 - n1,
{
    if n1 < n2 {
        lemma_sum_sq_none_stays(s, n1, n2 - 1);
    }
}

/// Element-wise clamp of a tensor into `[lo, hi]`.
pub fn clamp(x: &Tensor, lo: i64, hi: i64) -> (r: Tensor)
    requires
        lo <= hi,
    ensures
        r@.len() == x@.len(),
        forall|k: int| 0 <= k < x@.len() ==> r@[k] as int == fx_clamp(x@[k] as int, lo as int, hi as int),
{
    let n = x.len();
    let mut elems: Vec<i64> = Vec::new();
    let mut i: usize = 0;
    while i < n
        invariant
            lo <= hi,
            i <= n,
            n == x@.len(),
            elems@.len() == i,
            forall|k: int| 0 <= k < i ==> elems@[k] as int == fx_clamp(x@[k] as int, lo as int, hi as int),
        decreases n - i,
    {
        elems.push(clamp_i64(x.get(i), lo, hi));
        i = i + 1;
    }
    Tensor::new(elems)
}

/// The scalar L2 norm `sqrt(sum of squares)` of a tensor, in fixed point;
/// fails with a numeric error exactly when an intermediate does not fit.
pub fn norm_l2(x: &Tensor) -> (r: Result<i64, Error>)
    ensures
        match norm_l2_spec(x@) {
            Some(v) => r == Ok::<i64, Error>(v as i64) && 0 <= v <= i64::MAX,
            None => r == Err::<i64, Error>(Error::Numeric),
        },
{
    let n = x.len();
    let mut acc: i64 = 0;
    let mut i: usize = 0;
    while i < n
        invariant
            i <= n,
            n == x@.len(),
            sum_sq_to(x@, i as int) == Some(acc as int),
            acc >= 0,
        decreases n - i,
    {
        let e = x.get(i);
        let sq = match mul_fx(e, e) {
            Some(v) => v,
            None => {
                proof {
                    lemma_sum_sq_none_stays(x@, i + 1, n as int);
                }
                return Err(Error::Numeric);
            },
        };
        proof {
            assert((e as int) * (e as int) >= 0) by (nonlinear_arith);
        }
        let next = match acc.checked_add(sq) {
            Some(v) => v,
            None => {
                proof {
                    lemma_sum_sq_none_stays(x@, i + 1, n as int);
                }
                return Err(Error::Numeric);
            },
        };
        acc = next;
        i = i + 1;
    }
    proof {
        lemma_sum_sq_nonneg(x@, n as int);
    }
    Ok(sqrt_fx(acc))
}

} // verus!

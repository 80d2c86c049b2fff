//! Exact fixed-point arithmetic: a numeric value is an `i64` count of units
//! of `1 / SCALE`. Multiplication and division truncate toward zero, exactly
//! as the spec functions here state, so every optimizer and scheduler formula
//! built on them has a precise mathematical statement.

use vstd::prelude::*;

verus! {

/// Number of fixed-point units in 1.0.
pub const SCALE: i64 = 1_000_000_000;

/// Truncating (toward zero) division, for a positive divisor.
pub open spec fn tdiv(a: int, d: int) -> int
    recommends
        d > 0,
{
    if a >= 0 {
        a / d
    } else {
        -((-a) / d)
    }
}

/// Fixed-point product: the real product of `a / SCALE` and `b / SCALE`,
/// truncated toward zero to a whole number of units.
pub open spec fn fx_mul(a: int, b: int) -> int {
    tdiv(a * b, SCALE as int)
}

/// Fixed-point quotient of `a / SCALE` by `b / SCALE`, truncated toward zero.
pub open spec fn fx_div(a: int, b: int) -> int
    recommends
        b > 0,
{
    tdiv(a * (SCALE as int), b)
}

/// Whether a mathematical integer is representable as an `i64` unit count.
pub open spec fn i64_fits(x: int) -> bool {
    i64::MIN <= x <= i64::MAX
}

/// A computation step that fails when its result leaves the `i64` range.
pub open spec fn chk(x: int) -> Option<int> {
    if i64_fits(x) {
        Some(x)
    } else {
        None
    }
}

/// `x` limited to the band `[lo, hi]`: values above `hi` become `hi`,
/// values below `lo` become `lo`.
pub open spec fn fx_clamp(x: int, lo: int, hi: int) -> int
    recommends
        lo <= hi,
{
    if x > hi {
        hi
    } else if x < lo {
        lo
    } else {
        x
    }
}

/// `t`-th fixed-point power of `b`, with `fx_pow(b, 0) == SCALE` (one).
pub open spec fn fx_pow(b: int, t: nat) -> int
    decreases t,
{
    if t == 0 {
        SCALE as int
    } else {
        fx_mul(b, fx_pow(b, (t - 1) as nat))
    }
}

/// Integer square root: the greatest `r` with `r * r <= x`.
pub open spec fn sqrt_floor(x: nat) -> nat
    decreases x,
{
    if x == 0 {
        0
    } else {
        let r = sqrt_floor((x - 1) as nat);
        if (r + 1) * (r + 1) <= x {
            r + 1
        } else {
            r
        }
    }
}

/// Fixed-point square root of a nonnegative value: the representation of
/// `sqrt(v / SCALE)` is the integer square root of `v * SCALE`.
pub open spec fn fx_sqrt(v: int) -> int
    recommends
        v >= 0,
{
    sqrt_floor((v * SCALE) as nat) as int
}

/// Bias-correction factor `1 / (1 - b^t)` in fixed point.
pub open spec fn bias_scale_spec(b: int, t: nat) -> int {
    fx_div(SCALE as int, (SCALE as int) - fx_pow(b, t))
}

/// Magnitude of a mathematical integer.
pub open spec fn mag(x: int) -> int {
    if x >= 0 {
        x
    } else {
        -x
    }
}

proof fn lemma_tdiv_by_magnitudes(a: int, b: int, d: int)
    requires
        d > 0,
    ensures
        (a >= 0) == (b >= 0) ==> tdiv(a * b, d) == mag(a) * mag(b) / d,
        (a >= 0) != (b >= 0) ==> tdiv(a * b, d) == -(mag(a) * mag(b) / d),
{
    assert(mag(a) * mag(b) == mag(a * b)) by (nonlinear_arith);
    assert((a >= 0) == (b >= 0) ==> a * b >= 0) by (nonlinear_arith);
    assert(((a >= 0) != (b >= 0) && a * b != 0) ==> a * b < 0) by (nonlinear_arith);
    if a * b == 0 {
        assert(tdiv(a * b, d) == 0int / d);
        assert(mag(a * b) == 0);
        assert(-(0int / d) == 0int / d);
    }
}

/// Checked fixed-point multiplication: `Some` exactly when the truncated
/// product fits an `i64`.
pub fn mul_fx(a: i64, b: i64) -> (r: Option<i64>)
    ensures
        match r {
            Some(v) => chk(fx_mul(a as int, b as int)) == Some(v as int),
            None => chk(fx_mul(a as int, b as int)) is None,
        },
{
    let neg = (a < 0) != (b < 0);
    let ma: u128 = if a >= 0 {
        a as u128
    } else {
        (-(a as i128)) as u128
    };
    let mb: u128 = if b >= 0 {
        b as u128
    } else {
        (-(b as i128)) as u128
    };
    proof {
        assert(ma as int * mb as int <= 0x8000000000000000 * 0x8000000000000000)
            by (nonlinear_arith)
            requires
                0 <= ma as int <= 0x8000000000000000,
                0 <= mb as int <= 0x8000000000000000,
        ;
    }
    let q: u128 = (ma * mb) / (SCALE as u128);
    proof {
        lemma_tdiv_by_magnitudes(a as int, b as int, SCALE as int);
        assert(mag(a as int) == ma as int && mag(b as int) == mb as int);
    }
    if neg {
        if q <= 0x8000000000000000u128 {
            Some((-(q as i128)) as i64)
        } else {
            None
        }
    } else {
        if q <= i64::MAX as u128 {
            Some(q as i64)
        } else {
            None
        }
    }
}

/// Checked fixed-point division by a positive divisor: `Some` exactly when
/// the truncated quotient fits an `i64`.
pub fn div_fx(a: i64, b: i64) -> (r: Option<i64>)
    requires
        b > 0,
    ensures
        match r {
            Some(v) => chk(fx_div(a as int, b as int)) == Some(v as int),
            None => chk(fx_div(a as int, b as int)) is None,
        },
{
    let ma: u128 = if a >= 0 {
        a as u128
    } else {
        (-(a as i128)) as u128
    };
    proof {
        assert(ma as int * SCALE as int <= 0x8000000000000000 * SCALE as int)
            by (nonlinear_arith)
            requires
                0 <= ma as int <= 0x8000000000000000,
        ;
    }
    let q: u128 = (ma * (SCALE as u128)) / (b as u128);
    proof {
        lemma_tdiv_by_magnitudes(a as int, SCALE as int, b as int);
        assert(mag(a as int) == ma as int && mag(SCALE as int) == SCALE as int);
    }
    if a < 0 {
        if q <= 0x8000000000000000u128 {
            Some((-(q as i128)) as i64)
        } else {
            None
        }
    } else {
        if q <= i64::MAX as u128 {
            Some(q as i64)
        } else {
            None
        }
    }
}


proof fn lemma_sqrt_floor_bounds(x: nat)
    ensures
        sqrt_floor(x) * sqrt_floor(x) <= x,
        x < (sqrt_floor(x) + 1) * (sqrt_floor(x) + 1),
    decreases x,
{
    if x > 0 {
        lemma_sqrt_floor_bounds((x - 1) as nat);
        let r = sqrt_floor((x - 1) as nat);
        assert(r * r <= x - 1);
        assert(x - 1 < (r + 1) * (r + 1));
        if (r + 1) * (r + 1) <= x {
            assert(sqrt_floor(x) == r + 1);
            assert(x < (r + 1 + 1) * (r + 1 + 1)) by (nonlinear_arith)
                requires
                    x <= (r + 1) * (r + 1) + 1,
                    (r + 1) * (r + 1) <= x,
                    r >= 0,
            ;
            assert(sqrt_floor(x) * sqrt_floor(x) <= x);
            assert(x < (sqrt_floor(x) + 1) * (sqrt_floor(x) + 1));
        } else {
            assert(sqrt_floor(x) == r);
            assert(sqrt_floor(x) * sqrt_floor(x) <= x);
            assert(x < (sqrt_floor(x) + 1) * (sqrt_floor(x) + 1));
        }
    } else {
        assert(x == 0);
        assert(sqrt_floor(0nat) == 0);
        assert(sqrt_floor(x) * sqrt_floor(x) <= x);
        assert((sqrt_floor(x) + 1) * (sqrt_floor(x) + 1) == 1) by (nonlinear_arith)
            requires
                sqrt_floor(x) == 0nat,
        ;
        assert(x < (sqrt_floor(x) + 1) * (sqrt_floor(x) + 1));
    }
}

proof fn lemma_sqrt_floor_unique(x: nat, r: nat)
    requires
        r * r <= x,
        x < (r + 1) * (r + 1),
    ensures
        r == sqrt_floor(x),
{
    lemma_sqrt_floor_bounds(x);
    let s = sqrt_floor(x);
    if r < s {
        assert(false) by (nonlinear_arith)
            requires
                r < s,
                s * s <= x,
                x < (r + 1) * (r + 1),
        ;
    }
    if s < r {
        assert(false) by (nonlinear_arith)
            requires
                s < r,
                r * r <= x,
                x < (s + 1) * (s + 1),
        ;
    }
}

/// Integer square root by binary search: the greatest `r` with `r * r <= x`.
pub fn isqrt_u128(x: u128) -> (r: u64)
    ensures
        r == sqrt_floor(x as nat),
{
    if x == 0 {
        return 0;
    }
    let mut lo: u128 = 0;
    let mut hi: u128 = 0x10000000000000000;
    proof {
        assert((x as int) < 0x10000000000000000 * 0x10000000000000000);
    }
    while lo + 1 < hi
        invariant
            0 <= lo < hi <= 0x10000000000000000,
            lo * lo <= x,
            (x as int) < hi * hi,
        decreases hi - lo,
    {
        let mid: u128 = lo + (hi - lo) / 2;
        proof {
            assert(lo < mid < hi);
            assert(mid * mid < 0x10000000000000000 * 0x10000000000000000)
                by (nonlinear_arith)
                requires
                    0 <= mid as int <= 0x10000000000000000 - 1,
            ;
        }
        if mid * mid <= x {
            lo = mid;
        } else {
            hi = mid;
        }
    }
    proof {
        lemma_sqrt_floor_unique(x as nat, lo as nat);
    }
    lo as u64
}

/// Fixed-point square root of a nonnegative value.
pub fn sqrt_fx(v: i64) -> (r: i64)
    requires
        v >= 0,
    ensures
        r == fx_sqrt(v as int),
        r >= 0,
{
    proof {
        assert(v as int * (SCALE as int) <= i64::MAX as int * (SCALE as int))
            by (nonlinear_arith)
            requires
                0 <= v as int <= i64::MAX as int,
                SCALE as int > 0,
        ;
    }
    let p: u128 = (v as u128) * (SCALE as u128);
    let q: u64 = isqrt_u128(p);
    proof {
        lemma_sqrt_floor_bounds(p as nat);
        assert(q as int <= i64::MAX) by (nonlinear_arith)
            requires
                q as int * (q as int) <= p as int,
                p as int <= i64::MAX as int * (SCALE as int),
                q >= 0,
        ;
    }
    q as i64
}

proof fn lemma_fx_pow_range(b: int, t: nat)
    requires
        0 <= b < SCALE as int,
    ensures
        0 <= fx_pow(b, t) <= SCALE as int,
        t >= 1 ==> fx_pow(b, t) <= b,
    decreases t,
{
    if t == 0 {
    } else {
        lemma_fx_pow_range(b, (t - 1) as nat);
        let p = fx_pow(b, (t - 1) as nat);
        assert(0 <= b * p <= SCALE as int * p) by (nonlinear_arith)
            requires
                0 <= b < SCALE as int,
                0 <= p,
        ;
        assert(0 <= (b * p) / (SCALE as int) <= p) by (nonlinear_arith)
            requires
                0 <= b * p <= SCALE as int * p,
                0 <= p,
        ;
        if t == 1 {
            assert(fx_pow(b, 0) == SCALE as int);
            assert((b * (SCALE as int)) / (SCALE as int) == b) by (nonlinear_arith)
                requires
                    SCALE as int > 0,
            ;
        }
    }
}

proof fn lemma_fx_pow_zero_stays(b: int, t1: nat, t2: nat)
    requires
        0 <= b,
        fx_pow(b, t1) == 0,
        t1 <= t2,
    ensures
        fx_pow(b, t2) == 0,
    decreases t2 - t1,
{
    if t1 < t2 {
        lemma_fx_pow_zero_stays(b, t1, (t2 - 1) as nat);
        assert(fx_pow(b, t2) == fx_mul(b, 0));
        assert(b * 0 == 0);
        assert(tdiv(0, SCALE as int) == 0int / (SCALE as int));
    }
}

/// Fixed-point power `b^t`, for a base in `[0, 1)`; the result never leaves
/// `[0, SCALE]`, so no overflow is possible.
pub fn pow_fx(b: i64, t: u64) -> (r: i64)
    requires
        0 <= b < SCALE,
    ensures
        r == fx_pow(b as int, t as nat),
        0 <= r <= SCALE,
        t >= 1 ==> r <= b,
{
    proof {
        lemma_fx_pow_range(b as int, t as nat);
    }
    let mut acc: i64 = SCALE;
    let mut i: u64 = 0;
    while i < t
        invariant
            0 <= b < SCALE,
            i <= t,
            acc == fx_pow(b as int, i as nat),
            0 <= acc <= SCALE,
        decreases t - i,
    {
        proof {
            lemma_fx_pow_range(b as int, i as nat);
        }
        if acc == 0 {
            proof {
                lemma_fx_pow_zero_stays(b as int, i as nat, t as nat);
            }
            return 0;
        }
        proof {
            assert(0 <= b as int * acc as int <= SCALE as int * (SCALE as int))
                by (nonlinear_arith)
                requires
                    0 <= b as int <= SCALE as int,
                    0 <= acc as int <= SCALE as int,
            ;
            assert(i64_fits(fx_mul(b as int, acc as int))) by (nonlinear_arith)
                requires
                    0 <= b as int * acc as int <= SCALE as int * (SCALE as int),
                    fx_mul(b as int, acc as int) == (b as int * acc as int) / (SCALE as int),
                    SCALE == 1_000_000_000,
            ;
        }
        let next = match mul_fx(b, acc) {
            Some(v) => v,
            None => 0,
        };
        acc = next;
        i = i + 1;
        proof {
            lemma_fx_pow_range(b as int, i as nat);
        }
    }
    acc
}

/// Bias-correction factor `1 / (1 - b^t)` in fixed point, for a decay rate
/// `b` in `[0, 1)` and a step count `t >= 1`. The factor is at least one and
/// at most `SCALE * SCALE` units, so it always fits.
pub fn bias_scale(b: i64, t: u64) -> (r: i64)
    requires
        0 <= b < SCALE,
        t >= 1,
    ensures
        r == bias_scale_spec(b as int, t as nat),
        SCALE <= r <= SCALE as int * (SCALE as int),
{
    proof {
        lemma_fx_pow_range(b as int, t as nat);
    }
    let p = pow_fx(b, t);
    let d: i64 = SCALE - p;
    proof {
        assert(d >= 1);
        assert(fx_div(SCALE as int, d as int) == (SCALE as int * (SCALE as int)) / (d as int));
        assert(SCALE as int <= (SCALE as int * (SCALE as int)) / (d as int)
            <= SCALE as int * (SCALE as int)) by (nonlinear_arith)
            requires
                1 <= d as int <= SCALE as int,
                SCALE == 1_000_000_000,
        ;
    }
    let r = match div_fx(SCALE, d) {
        Some(v) => v,
        None => SCALE,
    };
    r
}


/// Truncating division of a nonnegative value by a positive divisor stays
/// nonnegative and never grows.
pub proof fn lemma_tdiv_nonneg(a: int, d: int)
    requires
        a >= 0,
        d > 0,
    ensures
        0 <= tdiv(a, d) <= a,
{
    vstd::arithmetic::div_mod::lemma_div_pos_is_pos(a, d);
    vstd::arithmetic::div_mod::lemma_div_nonincreasing(a, d);
}

/// The fixed-point product of nonnegative values is nonnegative.
pub proof fn lemma_fx_mul_nonneg(a: int, b: int)
    requires
        a >= 0,
        b >= 0,
    ensures
        fx_mul(a, b) >= 0,
{
    assert(a * b >= 0) by (nonlinear_arith)
        requires
            a >= 0,
            b >= 0,
    ;
    lemma_tdiv_nonneg(a * b, SCALE as int);
}

/// Clamp into `[lo, hi]`.
pub fn clamp_i64(x: i64, lo: i64, hi: i64) -> (r: i64)
    requires
        lo <= hi,
    ensures
        r == fx_clamp(x as int, lo as int, hi as int),
{
    if x > hi {
        hi
    } else if x < lo {
        lo
    } else {
        x
    }
}

} // verus!

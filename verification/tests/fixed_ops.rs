use optim::Error;
use optim::fixed::SCALE;
use optim::fixed::clamp_i64;
use optim::fixed::div_fx;
use optim::fixed::mul_fx;
use optim::fixed::pow_fx;
use optim::fixed::sqrt_fx;
use optim::ops::clamp;
use optim::ops::norm_l2;
use optim::tensor::Tensor;

#[test]
fn mul_fx_truncates_toward_zero() {
    // 0.5 * 0.000000003 = 0.0000000015, truncated to 1 unit.
    assert_eq!(mul_fx(500_000_000, 3), Some(1));
    assert_eq!(mul_fx(-500_000_000, 3), Some(-1));
    assert_eq!(mul_fx(SCALE, SCALE), Some(SCALE));
    assert_eq!(mul_fx(2 * SCALE, 3 * SCALE), Some(6 * SCALE));
    // Overflow: (2^62 / SCALE units)^2 does not fit.
    assert_eq!(mul_fx(i64::MAX, i64::MAX), None);
}

#[test]
fn div_fx_exact_quotients() {
    assert_eq!(div_fx(SCALE, 2 * SCALE), Some(SCALE / 2));
    assert_eq!(div_fx(-SCALE, 2 * SCALE), Some(-SCALE / 2));
    assert_eq!(div_fx(1, 3), Some(333_333_333));
    // Overflow: a tiny divisor blows the quotient out of range.
    assert_eq!(div_fx(i64::MAX, 1), None);
}

#[test]
fn sqrt_fx_exact_squares() {
    assert_eq!(sqrt_fx(0), 0);
    assert_eq!(sqrt_fx(SCALE), SCALE);
    assert_eq!(sqrt_fx(4 * SCALE), 2 * SCALE);
    // sqrt(2) in fixed point, truncated.
    assert_eq!(sqrt_fx(2 * SCALE), 1_414_213_562);
}

#[test]
fn pow_fx_decays() {
    assert_eq!(pow_fx(900_000_000, 0), SCALE);
    assert_eq!(pow_fx(900_000_000, 1), 900_000_000);
    assert_eq!(pow_fx(900_000_000, 2), 810_000_000);
    // A decaying base eventually truncates to exactly zero and stays there.
    assert_eq!(pow_fx(900_000_000, 1_000), 0);
    assert_eq!(pow_fx(0, 5), 0);
}

#[test]
fn clamp_scalar_and_tensor() {
    assert_eq!(clamp_i64(7, 1, 5), 5);
    assert_eq!(clamp_i64(-7, 1, 5), 1);
    assert_eq!(clamp_i64(3, 1, 5), 3);
    let t = Tensor::new(vec![-10, 0, 10]);
    let c = clamp(&t, -2, 4);
    assert_eq!(c.get(0), -2);
    assert_eq!(c.get(1), 0);
    assert_eq!(c.get(2), 4);
}

#[test]
fn norm_l2_of_three_four_is_five() {
    let t = Tensor::new(vec![3 * SCALE, 4 * SCALE]);
    assert_eq!(norm_l2(&t), Ok(5 * SCALE));
}

#[test]
fn norm_l2_overflow_is_numeric_error() {
    // The square of a huge element leaves the fixed-point range.
    let t = Tensor::new(vec![i64::MAX]);
    assert_eq!(norm_l2(&t), Err(Error::Numeric));
}

#[test]
fn tensor_basics() {
    let z = Tensor::zeros(3);
    assert_eq!(z.len(), 3);
    assert_eq!(z.get(0), 0);
    assert_eq!(z.get(2), 0);
    let mut t = Tensor::new(vec![1, 2, 3]);
    let u = Tensor::new(vec![4, 5, 6]);
    t.set(&u);
    assert_eq!(t.get(0), 4);
    assert_eq!(t.get(2), 6);
}

use optim::Error;
use optim::fixed::SCALE;
use optim::schedulers::ConstantWithWarmup;
use optim::schedulers::CosineWithWarmup;
use optim::schedulers::LinearWithWarmup;
use optim::schedulers::LrPhase;
use optim::schedulers::Schedule;

const BASE: i64 = 1_000_000; // 0.001

#[test]
fn constant_rejects_nonpositive_base() {
    assert!(matches!(ConstantWithWarmup::try_new(10, 0), Err(Error::Configuration)));
    assert!(matches!(ConstantWithWarmup::try_new(10, -5), Err(Error::Configuration)));
    assert!(ConstantWithWarmup::try_new(10, 1).is_ok());
}

#[test]
fn constant_ramps_from_zero_to_base() {
    let s = ConstantWithWarmup::try_new(100, BASE).unwrap();
    assert_eq!(s.get_lr(0), Ok(0));
    assert_eq!(s.get_lr(50), Ok(500_000));
    assert_eq!(s.get_lr(100), Ok(BASE));
    assert_eq!(s.get_lr(101), Ok(BASE));
    assert_eq!(s.get_lr(1_000_000), Ok(BASE));
}

#[test]
fn constant_zero_warmup_is_flat() {
    let s = ConstantWithWarmup::try_new(0, BASE).unwrap();
    assert_eq!(s.get_lr(0), Ok(BASE));
    assert_eq!(s.get_lr(7), Ok(BASE));
}

#[test]
fn linear_construction_validation() {
    assert!(matches!(LinearWithWarmup::try_new(11, 10, BASE), Err(Error::Configuration)));
    assert!(matches!(LinearWithWarmup::try_new(0, 0, BASE), Err(Error::Configuration)));
    assert!(matches!(LinearWithWarmup::try_new(0, 10, 0), Err(Error::Configuration)));
    assert!(matches!(LinearWithWarmup::try_new(0, 10, -1), Err(Error::Configuration)));
    assert!(LinearWithWarmup::try_new(10, 10, BASE).is_ok());
}

#[test]
fn linear_ramp_then_decay_to_zero() {
    let s = LinearWithWarmup::try_new(10, 110, BASE).unwrap();
    assert_eq!(s.get_lr(0), Ok(0));
    assert_eq!(s.get_lr(5), Ok(500_000));
    assert_eq!(s.get_lr(10), Ok(BASE));
    assert_eq!(s.get_lr(60), Ok(500_000));
    assert_eq!(s.get_lr(110), Ok(0));
}

#[test]
fn linear_query_beyond_horizon_is_range_error() {
    let s = LinearWithWarmup::try_new(10, 110, BASE).unwrap();
    assert_eq!(s.get_lr(111), Err(Error::Range));
    assert_eq!(s.get_lr(u64::MAX), Err(Error::Range));
}

#[test]
fn linear_monotone_on_both_phases() {
    let s = LinearWithWarmup::try_new(10, 110, BASE).unwrap();
    let mut prev = s.get_lr(0).unwrap();
    for t in 1..=10u64 {
        let cur = s.get_lr(t).unwrap();
        assert!(cur >= prev);
        prev = cur;
    }
    for t in 11..=110u64 {
        let cur = s.get_lr(t).unwrap();
        assert!(cur <= prev);
        prev = cur;
    }
}

#[test]
fn cosine_construction_validation() {
    assert!(matches!(CosineWithWarmup::try_new(11, 10, SCALE, BASE), Err(Error::Configuration)));
    assert!(matches!(CosineWithWarmup::try_new(0, 0, SCALE, BASE), Err(Error::Configuration)));
    assert!(matches!(CosineWithWarmup::try_new(0, 10, SCALE, 0), Err(Error::Configuration)));
    assert!(CosineWithWarmup::try_new(5, 10, SCALE, BASE).is_ok());
}

#[test]
fn cosine_phase_reduction() {
    // One full cycle over a decay phase of 10 steps.
    let s = CosineWithWarmup::try_new(10, 20, SCALE, BASE).unwrap();
    assert_eq!(s.lr_phase(0), Ok(LrPhase::Ramp(0)));
    assert_eq!(s.lr_phase(5), Ok(LrPhase::Ramp(500_000)));
    assert_eq!(s.lr_phase(10), Ok(LrPhase::Ramp(BASE)));
    // Half way through the decay: progress 0.5, angle 2 * 1.0 * 0.5 = 1.0
    // half-turn, i.e. cos(pi).
    assert_eq!(s.lr_phase(15), Ok(LrPhase::Cosine(SCALE)));
    assert_eq!(s.lr_phase(21), Err(Error::Range));
}

#[test]
fn cosine_rate_from_cosine_value() {
    let s = CosineWithWarmup::try_new(10, 20, SCALE, BASE).unwrap();
    // cos = 1: full base rate; cos = -1: zero; cos = 0: half.
    assert_eq!(s.lr_from_cos(SCALE), BASE);
    assert_eq!(s.lr_from_cos(-SCALE), 0);
    assert_eq!(s.lr_from_cos(0), 500_000);
}

#[test]
fn cosine_angle_overflow_is_numeric_error() {
    let s = CosineWithWarmup::try_new(0, 10, i64::MAX, BASE).unwrap();
    assert_eq!(s.lr_phase(5), Err(Error::Numeric));
}

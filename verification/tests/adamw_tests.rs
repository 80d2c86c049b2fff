use optim::Error;
use optim::fixed::SCALE;
use optim::optimizers::AdamW;
use optim::optimizers::ConfigAdamW;
use optim::optimizers::GradientMap;
use optim::tensor::Tensor;

fn config(amsgrad: bool) -> ConfigAdamW {
    let mut c = ConfigAdamW::default();
    c.amsgrad = amsgrad;
    c
}

#[test]
fn adamw_construction_state() {
    let c = config(true);
    let opt = AdamW::new(vec![Tensor::new(vec![1, 2]), Tensor::zeros(3)], c).unwrap();
    assert_eq!(opt.param_count(), 2);
    assert_eq!(opt.step_count(), 0);
    assert_eq!(opt.param(0).get(1), 2);
    assert_eq!(opt.first_moment(0).get(0), 0);
    assert_eq!(opt.second_moment(1).get(2), 0);
    assert_eq!(opt.max_second_moment(0).unwrap().get(0), 0);
    let plain = AdamW::new(vec![Tensor::zeros(1)], config(false)).unwrap();
    assert!(plain.max_second_moment(0).is_none());
}

#[test]
fn adamw_first_step_exact_values() {
    // One parameter holding 1.0, gradient 1.0, stock configuration.
    let mut opt = AdamW::new(vec![Tensor::new(vec![SCALE])], config(false)).unwrap();
    let mut grads = GradientMap::new(1);
    grads.set(0, Tensor::new(vec![SCALE]));
    assert_eq!(opt.step(&grads), Ok(()));
    assert_eq!(opt.step_count(), 1);
    // m = 0.1, v = 0.001, and theta = 1.0 * (1 - lr*wd) - lr * m_hat /
    // (sqrt(v_hat) + eps), all truncated toward zero.
    assert_eq!(opt.first_moment(0).get(0), 100_000_000);
    assert_eq!(opt.second_moment(0).get(0), 1_000_000);
    assert_eq!(opt.param(0).get(0), 998_990_001);
}

#[test]
fn adamw_zero_gradient_with_decay_shrinks_parameter() {
    // Zero gradient, fresh state: with weight decay 0.01 and lr 0.001 the
    // parameter shrinks multiplicatively by (1 - lr*wd) = (1 - 1e-5).
    let mut opt = AdamW::new(vec![Tensor::new(vec![SCALE])], config(false)).unwrap();
    let mut grads = GradientMap::new(1);
    grads.set(0, Tensor::new(vec![0]));
    assert_eq!(opt.step(&grads), Ok(()));
    assert_eq!(opt.param(0).get(0), 999_990_000);
    assert_eq!(opt.first_moment(0).get(0), 0);
    assert_eq!(opt.second_moment(0).get(0), 0);
}

#[test]
fn adamw_zero_gradient_without_decay_is_identity() {
    let mut c = config(false);
    c.weight_decay = 0;
    let mut opt = AdamW::new(vec![Tensor::new(vec![SCALE, -12_345, 7])], c).unwrap();
    let mut grads = GradientMap::new(1);
    grads.set(0, Tensor::zeros(3));
    assert_eq!(opt.step(&grads), Ok(()));
    assert_eq!(opt.param(0).get(0), SCALE);
    assert_eq!(opt.param(0).get(1), -12_345);
    assert_eq!(opt.param(0).get(2), 7);
}

#[test]
fn adamw_skips_parameter_without_gradient() {
    // Two parameters; only the first gets a gradient. The second is left
    // bit for bit unchanged while the first updates normally.
    let c = config(false);
    let mut opt = AdamW::new(
        vec![Tensor::new(vec![SCALE]), Tensor::new(vec![777, -888])],
        c,
    ).unwrap();
    let mut grads = GradientMap::new(2);
    grads.set(0, Tensor::new(vec![SCALE]));
    assert_eq!(opt.step(&grads), Ok(()));
    assert_ne!(opt.param(0).get(0), SCALE);
    assert_eq!(opt.param(1).get(0), 777);
    assert_eq!(opt.param(1).get(1), -888);
    assert_eq!(opt.first_moment(1).get(0), 0);
}

#[test]
fn amsgrad_running_maximum_is_monotone() {
    // Feed a large gradient, then tiny ones: the bias-corrected second
    // moment falls, but the running maximum never decreases.
    let mut opt = AdamW::new(vec![Tensor::new(vec![0])], config(true)).unwrap();
    let mut prev = 0i64;
    let grads_per_step: [i64; 5] = [SCALE, 1000, 1000, 0, 1000];
    for g in grads_per_step {
        let mut grads = GradientMap::new(1);
        grads.set(0, Tensor::new(vec![g]));
        assert_eq!(opt.step(&grads), Ok(()));
        let vmax = opt.max_second_moment(0).unwrap().get(0);
        assert!(vmax >= prev);
        prev = vmax;
    }
    assert!(prev > 0);
}

#[test]
fn adamw_numeric_overflow_reported() {
    // lr * weight_decay overflows the fixed-point range before any
    // parameter is touched.
    let mut c = config(false);
    c.lr = i64::MAX;
    c.weight_decay = i64::MAX;
    let mut opt = AdamW::new(vec![Tensor::new(vec![42])], c).unwrap();
    let mut grads = GradientMap::new(1);
    grads.set(0, Tensor::new(vec![1]));
    assert_eq!(opt.step(&grads), Err(Error::Numeric));
    assert_eq!(opt.param(0).get(0), 42);
    // The step counter still advanced: one update call was made.
    assert_eq!(opt.step_count(), 1);
}

#[test]
fn adamw_shape_mismatch_is_numeric_error() {
    let mut opt = AdamW::new(vec![Tensor::zeros(2)], config(false)).unwrap();
    let mut grads = GradientMap::new(1);
    grads.set(0, Tensor::zeros(3));
    assert_eq!(opt.step(&grads), Err(Error::Numeric));
}

#[test]
fn adamw_rate_accessors() {
    let mut opt = AdamW::new(vec![], config(false)).unwrap();
    assert_eq!(opt.learning_rate(), 1_000_000);
    opt.set_learning_rate(-3);
    assert_eq!(opt.learning_rate(), -3);
}

#[test]
fn gradient_map_lookup() {
    let mut gm = GradientMap::new(2);
    assert_eq!(gm.len(), 2);
    assert!(gm.get(0).is_none());
    assert!(gm.get(5).is_none());
    gm.set(1, Tensor::new(vec![9]));
    assert!(gm.get(0).is_none());
    assert_eq!(gm.get(1).unwrap().get(0), 9);
}

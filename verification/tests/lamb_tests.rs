use optim::Error;
use optim::fixed::SCALE;
use optim::optimizers::GradientMap;
use optim::optimizers::Lamb;
use optim::optimizers::ParamsLamb;
use optim::optimizers::trust_ratio;
use optim::optimizers::LAMB_RATIO_MAX;
use optim::optimizers::LAMB_RATIO_MIN;
use optim::tensor::Tensor;

fn fx(x: f64) -> i64 {
    (x * SCALE as f64).round() as i64
}

fn fl(x: i64) -> f64 {
    x as f64 / SCALE as f64
}

#[test]
fn trust_ratio_always_in_band() {
    // Degenerate zero direction norm.
    assert_eq!(trust_ratio(0, 0), LAMB_RATIO_MAX);
    assert_eq!(trust_ratio(SCALE, 0), LAMB_RATIO_MAX);
    // Near-zero parameter norm against a huge direction norm.
    assert_eq!(trust_ratio(1, i64::MAX), LAMB_RATIO_MIN);
    // Huge parameter norm against a near-zero direction norm.
    assert_eq!(trust_ratio(i64::MAX, 1), LAMB_RATIO_MAX);
    // A quotient inside the band passes through exactly: 2.0 / 10.0 = 0.2.
    assert_eq!(trust_ratio(2 * SCALE, 10 * SCALE), 200_000_000);
    // Boundary values.
    assert_eq!(trust_ratio(8 * SCALE, 100 * SCALE), LAMB_RATIO_MIN);
    assert_eq!(trust_ratio(SCALE, 2 * SCALE), LAMB_RATIO_MAX);
}

#[test]
fn lamb_first_step_exact_values() {
    // One parameter holding 1.0, gradient 1.0, stock configuration.
    let mut opt = Lamb::new(vec![Tensor::new(vec![SCALE])], ParamsLamb::default()).unwrap();
    let mut grads = GradientMap::new(1);
    grads.set(0, Tensor::new(vec![SCALE]));
    assert_eq!(opt.step(&grads), Ok(()));
    assert_eq!(opt.step_count(), 1);
    assert_eq!(opt.first_moment(0).get(0), 100_000_000);
    assert_eq!(opt.second_moment(0).get(0), 1_000_000);
    // Direction r = m_hat / (sqrt(v_hat) + eps) + theta * lr * wd, trust
    // ratio clamps to 0.5, and theta moves by lr * ratio * r.
    assert_eq!(opt.param(0).get(0), 999_499_996);
}

#[test]
fn lamb_skips_parameter_without_gradient() {
    let mut opt = Lamb::new_lr(
        vec![Tensor::new(vec![SCALE]), Tensor::new(vec![31, -62])],
        1_000_000,
    ).unwrap();
    let mut grads = GradientMap::new(2);
    grads.set(0, Tensor::new(vec![SCALE]));
    assert_eq!(opt.step(&grads), Ok(()));
    assert_ne!(opt.param(0).get(0), SCALE);
    assert_eq!(opt.param(1).get(0), 31);
    assert_eq!(opt.param(1).get(1), -62);
}

#[test]
fn lamb_rate_accessors() {
    let mut opt = Lamb::new_lr(vec![], 5).unwrap();
    assert_eq!(opt.get_lr(), 5);
    opt.set_lr(9);
    assert_eq!(opt.get_lr(), 9);
}

#[test]
fn lamb_numeric_overflow_reported() {
    let mut params = ParamsLamb::default();
    params.lr = i64::MAX;
    params.weight_decay = i64::MAX;
    let mut opt = Lamb::new(vec![Tensor::new(vec![3])], params).unwrap();
    let mut grads = GradientMap::new(1);
    grads.set(0, Tensor::new(vec![1]));
    assert_eq!(opt.step(&grads), Err(Error::Numeric));
    assert_eq!(opt.param(0).get(0), 3);
}

#[test]
fn lamb_trains_linear_model() {
    // Synthetic targets from a known weight (3, 1) and bias -2, on the same
    // four samples throughout. The training loop computes the squared-error
    // loss and its gradients (the external backward pass) and drives LAMB
    // with lr = 0.001 and weight decay 0.01 for 10,000 steps. The loss must
    // fall monotonically on a moving-average basis. Weight decay folds a
    // pull toward zero into the update direction, so the loss settles at a
    // small positive floor rather than at zero; the run must end well below
    // one percent of its starting loss.
    let xs: [[f64; 2]; 4] = [[2.0, 1.0], [7.0, 4.0], [-4.0, 12.0], [5.0, 8.0]];
    let ys: [f64; 4] = [5.0, 23.0, -2.0, 21.0];
    let mut opt = Lamb::new(
        vec![Tensor::zeros(2), Tensor::zeros(1)],
        ParamsLamb::default(),
    ).unwrap();
    let mut losses: Vec<f64> = Vec::new();
    for _ in 0..10_000 {
        let w0 = fl(opt.param(0).get(0));
        let w1 = fl(opt.param(0).get(1));
        let b = fl(opt.param(1).get(0));
        let mut loss = 0.0;
        let mut gw = [0.0f64; 2];
        let mut gb = 0.0f64;
        for (x, y) in xs.iter().zip(ys.iter()) {
            let pred = w0 * x[0] + w1 * x[1] + b;
            let err = pred - y;
            loss += err * err;
            gw[0] += 2.0 * err * x[0];
            gw[1] += 2.0 * err * x[1];
            gb += 2.0 * err;
        }
        losses.push(loss);
        let mut grads = GradientMap::new(2);
        grads.set(0, Tensor::new(vec![fx(gw[0]), fx(gw[1])]));
        grads.set(1, Tensor::new(vec![fx(gb)]));
        assert_eq!(opt.step(&grads), Ok(()));
    }
    // Moving average over windows of 100 steps decreases monotonically.
    let windows: Vec<f64> = (0..100)
        .map(|i| losses[i * 100..(i + 1) * 100].iter().sum::<f64>() / 100.0)
        .collect();
    for pair in windows.windows(2) {
        assert!(pair[1] <= pair[0]);
    }
    let start = losses[0];
    let last = *losses.last().unwrap();
    assert!(start > 900.0);
    assert!(last < start / 100.0);
    assert!(last < 10.0);
}

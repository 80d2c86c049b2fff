use optim::optimizers::ConfigAdamW;
use optim::optimizers::ParamsLamb;
use optim::optimizers::ParamsSophia;

#[test]
fn adamw_default_config() {
    let c = ConfigAdamW::default();
    assert_eq!(c.lr, 1_000_000);
    assert_eq!(c.beta1, 900_000_000);
    assert_eq!(c.beta2, 999_000_000);
    assert_eq!(c.eps, 10);
    assert_eq!(c.weight_decay, 10_000_000);
    assert!(!c.amsgrad);
}

#[test]
fn lamb_default_params() {
    let c = ParamsLamb::default();
    assert_eq!(c.lr, 1_000_000);
    assert_eq!(c.beta1, 900_000_000);
    assert_eq!(c.beta2, 999_000_000);
    assert_eq!(c.eps, 1_000);
    assert_eq!(c.weight_decay, 10_000_000);
}

#[test]
fn sophia_default_params() {
    let c = ParamsSophia::default();
    assert_eq!(c.lr, 100_000);
    assert_eq!(c.beta1, 965_000_000);
    assert_eq!(c.beta2, 990_000_000);
    assert_eq!(c.eps, 1_000);
    assert_eq!(c.weight_decay, 100_000_000);
    assert_eq!(c.rho, 40_000_000);
}

use optim::Error;
use optim::optimizers::ConfigAdamW;
use optim::optimizers::AdamW;
use optim::optimizers::Lamb;
use optim::optimizers::Optimizer;
use optim::schedulers::ConstantWithWarmup;
use optim::schedulers::LinearWithWarmup;
use optim::schedulers::Schedule;
use optim::schedulers::Scheduler;
use optim::tensor::Tensor;

#[test]
fn scheduler_drives_adamw_rate() {
    let schedule = ConstantWithWarmup::try_new(4, 800).unwrap();
    let mut sched = Scheduler::new(schedule);
    let mut opt = AdamW::new(vec![Tensor::zeros(1)], ConfigAdamW::default()).unwrap();
    let expect = [200i64, 400, 600, 800, 800, 800];
    for n in 0..6usize {
        assert_eq!(sched.step(&mut opt), Ok(()));
        assert_eq!(sched.step_t, (n + 1) as u64);
        assert_eq!(sched.step_count(), (n + 1) as u64);
        assert_eq!(opt.learning_rate(), expect[n]);
    }
}

#[test]
fn scheduler_failure_leaves_rate_unchanged() {
    let schedule = LinearWithWarmup::try_new(0, 2, 1_000_000).unwrap();
    let mut sched = Scheduler::new(schedule);
    let mut opt = Lamb::new_lr(vec![Tensor::zeros(1)], 123).unwrap();
    assert_eq!(sched.step(&mut opt), Ok(()));
    assert_eq!(sched.step(&mut opt), Ok(()));
    let lr_before = opt.get_lr();
    // The third tick queries step 3, beyond the horizon of 2.
    assert_eq!(sched.step(&mut opt), Err(Error::Range));
    assert_eq!(opt.get_lr(), lr_before);
    // The counter still advanced.
    assert_eq!(sched.step_t, 3);
}

#[test]
fn scheduler_resume_and_swap() {
    let schedule = ConstantWithWarmup::try_new(10, 1_000).unwrap();
    let mut sched = Scheduler::new(schedule);
    sched.update_step(7);
    assert_eq!(sched.step_t, 7);
    let mut opt = Lamb::new_lr(vec![], 0).unwrap();
    assert_eq!(sched.step(&mut opt), Ok(()));
    // Step 8 of a 10-step warmup to 1000.
    assert_eq!(opt.get_lr(), 800);
    let steeper = ConstantWithWarmup::try_new(10, 2_000).unwrap();
    sched.update_schedule(steeper);
    assert_eq!(sched.step_t, 8);
    assert_eq!(sched.step(&mut opt), Ok(()));
    assert_eq!(opt.get_lr(), 1_800);
    assert_eq!(sched.schedule().get_lr(10), Ok(2_000));
}

#[test]
fn optimizer_capability_reads_and_writes_rate() {
    let mut a = AdamW::new(vec![], ConfigAdamW::default()).unwrap();
    assert_eq!(Optimizer::learning_rate(&a), 1_000_000);
    Optimizer::set_learning_rate(&mut a, 42);
    assert_eq!(a.learning_rate(), 42);
    let mut l = Lamb::new_lr(vec![], 55).unwrap();
    assert_eq!(Optimizer::learning_rate(&l), 55);
    Optimizer::set_learning_rate(&mut l, 77);
    assert_eq!(l.get_lr(), 77);
}

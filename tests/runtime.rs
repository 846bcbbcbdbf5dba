use neuro_compiler::runtime::{
    apply, apply_with_options, deploy, start, status, stop, version, ApplyOptions, Decision, DeploySpec,
    IdempotencyRegistry, NoOpPolicy, ResourceSnapshot,
};

#[test]
fn lifecycle_stubs_succeed() {
    let spec = DeploySpec { target: "riscv64gcv_linux".to_string() };
    assert!(deploy(&spec).is_ok(), "deploy ok");
    assert!(start().is_ok(), "start ok");
    assert!(stop().is_ok(), "stop ok");
    let s = status();
    assert!(!s.running);
    assert_eq!(version(), "0.0.1");
}

#[test]
fn noop_policy_decides_no_change() {
    let p = NoOpPolicy;
    let s = ResourceSnapshot::new(5000, 1000);
    assert_eq!(p.decide(&s), Decision::NoChange);
}

#[test]
fn apply_with_options_dry_run_is_ok() {
    let opts = ApplyOptions { idempotency_key: Some("key".into()), dry_run: true };
    let mut reg = IdempotencyRegistry::new();
    assert!(apply_with_options(&Decision::Repartition, &opts, &mut reg).is_ok(), "dry run ok");
    assert!(!reg.register_if_new("key"));
}

#[test]
fn apply_handles_all_decisions_ok() {
    assert!(apply(&Decision::NoChange).is_ok(), "no change ok");
    assert!(apply(&Decision::Repartition).is_ok(), "repartition ok");
    assert!(apply(&Decision::Reschedule).is_ok(), "reschedule ok");
    assert!(apply(&Decision::Throttle).is_ok(), "throttle ok");
}

#[test]
fn idempotency_key_is_recorded_once() {
    let opts = ApplyOptions { idempotency_key: Some("k1".into()), dry_run: false };
    let mut reg = IdempotencyRegistry::new();
    assert!(apply_with_options(&Decision::Throttle, &opts, &mut reg).is_ok());
    assert!(apply_with_options(&Decision::Throttle, &opts, &mut reg).is_ok());
    assert!(reg.register_if_new("k1"));
    assert!(!reg.register_if_new("k2"));
}

use bellperson::locks::{
    kernel_step, must_wait_for_priority, should_break, GpuError, KernelAction, KernelEvent, KernelState, LockProbe,
    RunOutcome,
};

#[test]
fn normal_kernel_breaks_only_on_contention() {
    assert!(should_break(false, LockProbe::Contended));
    assert!(!should_break(false, LockProbe::Acquired));
    assert!(!should_break(false, LockProbe::Failed));
}

#[test]
fn priority_kernel_never_breaks() {
    assert!(!should_break(true, LockProbe::Contended));
    assert!(!should_break(true, LockProbe::Acquired));
}

#[test]
fn only_normal_kernels_wait_for_priority() {
    assert!(must_wait_for_priority(false));
    assert!(!must_wait_for_priority(true));
}

#[test]
fn disabled_gpu_fails_at_once() {
    let s = KernelState::new(false);
    let (s2, a) = kernel_step(s, KernelEvent::Requested { gpu_disabled: true });
    assert_eq!(s2, s);
    assert_eq!(a, KernelAction::Fail { error: GpuError::GpuDisabled });
}

#[test]
fn normal_session_waits_then_runs() {
    let s = KernelState::new(false);
    let (s, a) = kernel_step(s, KernelEvent::Requested { gpu_disabled: false });
    assert_eq!(a, KernelAction::Acquire { wait_priority: true });
    assert!(s.has_lock && !s.has_kernel);
    let (s, a) = kernel_step(s, KernelEvent::Initialized { created: true });
    assert_eq!(a, KernelAction::Run);
    assert!(s.has_kernel);
    let (_, a) = kernel_step(s, KernelEvent::Ran { outcome: RunOutcome::Success });
    assert_eq!(a, KernelAction::Finish);
}

#[test]
fn preempted_session_frees_and_reacquires() {
    let s = KernelState { priority: false, has_kernel: true, has_lock: true };
    let (s, a) = kernel_step(s, KernelEvent::Ran { outcome: RunOutcome::Taken });
    assert_eq!(a, KernelAction::Acquire { wait_priority: true });
    assert!(!s.has_kernel);
    let (s, a) = kernel_step(s, KernelEvent::Initialized { created: true });
    assert_eq!(a, KernelAction::Run);
    let (_, a) = kernel_step(s, KernelEvent::Ran { outcome: RunOutcome::Success });
    assert_eq!(a, KernelAction::Finish);
}

#[test]
fn priority_session_does_not_wait() {
    let (_, a) = kernel_step(KernelState::new(true), KernelEvent::Requested { gpu_disabled: false });
    assert_eq!(a, KernelAction::Acquire { wait_priority: false });
}

#[test]
fn other_failures_end_the_session() {
    let s = KernelState { priority: true, has_kernel: true, has_lock: true };
    let (_, a) = kernel_step(s, KernelEvent::Ran { outcome: RunOutcome::Failure });
    assert_eq!(a, KernelAction::Fail { error: GpuError::GpuKernelFailure });
    let (s2, a) = kernel_step(KernelState::new(false), KernelEvent::Initialized { created: false });
    assert_eq!(a, KernelAction::Fail { error: GpuError::KernelUninitialized });
    assert!(!s2.has_kernel);
}

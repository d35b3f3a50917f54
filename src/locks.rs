//! The decisions of the GPU exclusion protocol. Two advisory file locks
//! arbitrate the GPU between processes: the GPU lock, held for a kernel's
//! lifetime, and the priority lock, held by a high-priority process. The file
//! operations are the caller's; these functions say what to do next.

use vstd::prelude::*;

verus! {

/// What a non-blocking shared acquire of the priority lock reported.
#[derive(Clone, Copy, Debug, PartialEq, Eq, Structural)]
pub enum LockProbe {
    /// The shared lock was taken: no high-priority process holds the lock.
    Acquired,
    /// The lock is held exclusively by another process.
    Contended,
    /// Another error, which is ignored.
    Failed,
}

/// Errors of a GPU kernel session.
#[derive(Clone, Copy, Debug, PartialEq, Eq, Structural)]
pub enum GpuError {
    /// GPU use is switched off for this process.
    GpuDisabled,
    /// A high-priority process took the GPU during a computation.
    GpuTaken,
    /// No kernel could be created.
    KernelUninitialized,
    /// The kernel failed otherwise.
    GpuKernelFailure,
}

/// A normal-priority kernel aborts exactly when the priority lock is held by
/// another process; a priority kernel never does.
pub fn should_break(priority: bool, probe: LockProbe) -> (r: bool)
    ensures
        r == (!priority && probe == LockProbe::Contended),
{
    if priority {
        return false;
    }
    match probe {
        LockProbe::Contended => true,
        _ => false,
    }
}

/// A normal-priority kernel waits for the priority lock to be free before it
/// starts; a priority kernel never waits.
pub fn must_wait_for_priority(priority: bool) -> (r: bool)
    ensures
        r == !priority,
{
    !priority
}

/// A kernel session: its priority, whether a kernel exists, and whether the
/// GPU lock is held.
#[derive(Clone, Copy, Debug, PartialEq, Eq, Structural)]
pub struct KernelState {
    pub priority: bool,
    pub has_kernel: bool,
    pub has_lock: bool,
}

/// How one run of the computation on the kernel ended.
#[derive(Clone, Copy, Debug, PartialEq, Eq, Structural)]
pub enum RunOutcome {
    Success,
    Taken,
    Failure,
}

/// What happened in the session.
#[derive(Clone, Copy, Debug, PartialEq, Eq, Structural)]
pub enum KernelEvent {
    /// A computation is requested; `gpu_disabled` when GPU use is switched off.
    Requested { gpu_disabled: bool },
    /// The GPU lock was taken and kernel creation was tried.
    Initialized { created: bool },
    /// The computation ran on the kernel.
    Ran { outcome: RunOutcome },
}

/// What the session does next.
#[derive(Clone, Copy, Debug, PartialEq, Eq, Structural)]
pub enum KernelAction {
    /// Stop with this error; the caller computes on the CPU instead.
    Fail { error: GpuError },
    /// Wait for the priority lock if `wait_priority`, take the GPU lock, create a kernel.
    Acquire { wait_priority: bool },
    /// Run the computation on the kernel.
    Run,
    /// The computation succeeded.
    Finish,
}

impl KernelState {
    /// A session with no kernel and no lock.
    pub fn new(priority: bool) -> (r: KernelState)
        ensures
            r == (KernelState { priority, has_kernel: false, has_lock: false }),
    {
        KernelState { priority, has_kernel: false, has_lock: false }
    }
}

/// The next state and action of a kernel session. A disabled GPU fails at once;
/// a missing kernel is acquired (after the priority lock, for a normal
/// session); preemption drops the kernel and the lock and acquires them again;
/// any other failure ends the session with that error.
pub fn kernel_step(s: KernelState, e: KernelEvent) -> (r: (KernelState, KernelAction))
    ensures
        r.0.priority == s.priority,
        match e {
            KernelEvent::Requested { gpu_disabled } => if gpu_disabled {
                r == (s, KernelAction::Fail { error: GpuError::GpuDisabled })
            } else if s.has_kernel {
                r == (s, KernelAction::Run)
            } else {
                r == (KernelState { has_lock: true, ..s }, KernelAction::Acquire { wait_priority: !s.priority })
            },
            KernelEvent::Initialized { created } => if created {
                r == (KernelState { has_kernel: true, ..s }, KernelAction::Run)
            } else {
                r == (KernelState { has_kernel: false, ..s }, KernelAction::Fail { error: GpuError::KernelUninitialized })
            },
            KernelEvent::Ran { outcome } => match outcome {
                RunOutcome::Success => r == (s, KernelAction::Finish),
                RunOutcome::Failure => r == (s, KernelAction::Fail { error: GpuError::GpuKernelFailure }),
                RunOutcome::Taken => r == (KernelState { has_kernel: false, has_lock: true, ..s },
                    KernelAction::Acquire { wait_priority: !s.priority }),
            },
        },
{
    match e {
        KernelEvent::Requested { gpu_disabled } => {
            if gpu_disabled {
                (s, KernelAction::Fail { error: GpuError::GpuDisabled })
            } else if s.has_kernel {
                (s, KernelAction::Run)
            } else {
                (KernelState { has_lock: true, ..s }, KernelAction::Acquire { wait_priority: must_wait_for_priority(s.priority) })
            }
        },
        KernelEvent::Initialized { created } => {
            if created {
                (KernelState { has_kernel: true, ..s }, KernelAction::Run)
            } else {
                (KernelState { has_kernel: false, ..s }, KernelAction::Fail { error: GpuError::KernelUninitialized })
            }
        },
        KernelEvent::Ran { outcome } => match outcome {
            RunOutcome::Success => (s, KernelAction::Finish),
            RunOutcome::Failure => (s, KernelAction::Fail { error: GpuError::GpuKernelFailure }),
            RunOutcome::Taken => (KernelState { has_kernel: false, has_lock: true, ..s },
                KernelAction::Acquire { wait_priority: must_wait_for_priority(s.priority) }),
        },
    }
}

} // verus!

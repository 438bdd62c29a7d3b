//! The resource controller: for one process, read what is enforced now and
//! write the policy's value only where it differs. Two backends share it:
//! the scheduling priority of the process, and the CPU quota of the
//! service-manager unit that owns it.

use vstd::prelude::*;
use crate::classify::{DesiredState, NodePlan, SkipReason};

verus! {

/// CPU quota per wall-clock second, in microseconds, that removes the cap.
pub const QUOTA_UNBOUNDED: u64 = 0xffff_ffff_ffff_ffff;

/// CPU quota per wall-clock second, in microseconds, of a throttled unit.
pub const QUOTA_THROTTLED: u64 = 100000;

/// Scheduling priority of an unthrottled process.
pub const PRIORITY_UNTHROTTLED: i32 = 0;

/// Scheduling priority of a throttled process.
pub const PRIORITY_THROTTLED: i32 = 10;

/// Which control the governor acts through.
#[derive(Clone, Copy, Debug, PartialEq, Eq, Structural)]
pub enum Backend {
    /// Sets the scheduling priority of the process itself.
    Priority,
    /// Sets the CPU quota of the unit that owns the process.
    Quota,
}

/// A value that a backend enforces.
#[derive(Clone, Copy, Debug, PartialEq, Eq, Structural)]
pub enum Setting {
    Priority(i32),
    CpuQuota(u64),
}

/// Why work on a node failed.
#[derive(Clone, Copy, Debug, PartialEq, Eq, Structural)]
pub enum FailureKind {
    /// The current value could not be read.
    Read,
    /// The new value could not be written.
    Write,
    /// An answer came that the step in progress did not ask for.
    Unexpected,
}

/// How work on one node ended.
#[derive(Clone, Copy, Debug, PartialEq, Eq)]
pub enum NodeOutcome {
    /// The node stands for no controllable process.
    Skipped(SkipReason),
    /// No service-manager unit owns the process.
    NoUnit,
    /// The enforced value already was the desired one: nothing written.
    Unchanged,
    /// The desired value was written.
    Changed(Setting),
    Failed(FailureKind),
}

pub open spec fn quota_for(state: DesiredState) -> u64 {
    match state {
        DesiredState::Unthrottled => QUOTA_UNBOUNDED,
        DesiredState::Throttled => QUOTA_THROTTLED,
    }
}

pub open spec fn priority_for(state: DesiredState) -> i32 {
    match state {
        DesiredState::Unthrottled => PRIORITY_UNTHROTTLED,
        DesiredState::Throttled => PRIORITY_THROTTLED,
    }
}

/// The value that `backend` enforces for `state`.
pub open spec fn setting_for(backend: Backend, state: DesiredState) -> Setting {
    match backend {
        Backend::Priority => Setting::Priority(priority_for(state)),
        Backend::Quota => Setting::CpuQuota(quota_for(state)),
    }
}

/// The write that an idempotent apply makes: none where the current value
/// is the target already.
pub open spec fn write_needed<T>(current: T, target: T) -> Option<T> {
    if current == target {
        None
    } else {
        Some(target)
    }
}

pub fn quota_value(state: DesiredState) -> (r: u64)
    ensures
        r == quota_for(state),
{
    match state {
        DesiredState::Unthrottled => QUOTA_UNBOUNDED,
        DesiredState::Throttled => QUOTA_THROTTLED,
    }
}

pub fn priority_value(state: DesiredState) -> (r: i32)
    ensures
        r == priority_for(state),
{
    match state {
        DesiredState::Unthrottled => PRIORITY_UNTHROTTLED,
        DesiredState::Throttled => PRIORITY_THROTTLED,
    }
}

pub fn setting_value(backend: Backend, state: DesiredState) -> (r: Setting)
    ensures
        r == setting_for(backend, state),
{
    match backend {
        Backend::Priority => Setting::Priority(priority_value(state)),
        Backend::Quota => Setting::CpuQuota(quota_value(state)),
    }
}

/// The quota to write, given the unit's current quota.
pub fn quota_write(current: u64, state: DesiredState) -> (r: Option<u64>)
    ensures
        r == write_needed(current, quota_for(state)),
{
    let target = quota_value(state);
    if current == target {
        None
    } else {
        Some(target)
    }
}

/// The priority to set, given the process's current priority.
pub fn priority_write(current: i32, state: DesiredState) -> (r: Option<i32>)
    ensures
        r == write_needed(current, priority_for(state)),
{
    let target = priority_value(state);
    if current == target {
        None
    } else {
        Some(target)
    }
}

/// Where an apply stands.
#[derive(Clone, Copy, Debug, PartialEq, Eq, Structural)]
pub enum ApplyPhase {
    /// Waiting for the unit that owns the process.
    Resolving,
    /// Waiting for the value enforced now.
    Reading,
    /// Waiting for the write to be confirmed.
    Writing,
    Finished,
}

/// What the outside world answered.
#[derive(Clone, Copy, Debug, PartialEq, Eq, Structural)]
pub enum ApplyEvent {
    /// The owning unit was found.
    Resolved,
    /// No unit owns the process.
    NotResolved,
    /// The value enforced now.
    Current(Setting),
    /// The write went through.
    Written,
    /// The request in progress failed.
    Failed,
}

/// What to do next.
#[derive(Clone, Copy, Debug, PartialEq, Eq)]
pub enum ApplyAction {
    /// Find the unit that owns the process.
    Resolve,
    /// Read the value enforced now.
    Read,
    /// Write this value.
    Write(Setting),
    /// Work on the node is over.
    Finish(NodeOutcome),
}

/// The first step of an apply through `backend`.
pub open spec fn first_step(backend: Backend) -> (ApplyPhase, ApplyAction) {
    match backend {
        Backend::Quota => (ApplyPhase::Resolving, ApplyAction::Resolve),
        Backend::Priority => (ApplyPhase::Reading, ApplyAction::Read),
    }
}

/// One step of an apply that brings the process to `target`.
pub open spec fn apply_step(phase: ApplyPhase, target: Setting, event: ApplyEvent) -> (
    ApplyPhase,
    ApplyAction,
) {
    let done = |o: NodeOutcome| (ApplyPhase::Finished, ApplyAction::Finish(o));
    match (phase, event) {
        (ApplyPhase::Resolving, ApplyEvent::Resolved) => (ApplyPhase::Reading, ApplyAction::Read),
        (ApplyPhase::Resolving, ApplyEvent::NotResolved) => done(NodeOutcome::NoUnit),
        (ApplyPhase::Resolving, ApplyEvent::Failed) => done(NodeOutcome::Failed(FailureKind::Read)),
        (ApplyPhase::Reading, ApplyEvent::Current(now)) => if now == target {
            done(NodeOutcome::Unchanged)
        } else {
            (ApplyPhase::Writing, ApplyAction::Write(target))
        },
        (ApplyPhase::Reading, ApplyEvent::Failed) => done(NodeOutcome::Failed(FailureKind::Read)),
        (ApplyPhase::Writing, ApplyEvent::Written) => done(NodeOutcome::Changed(target)),
        (ApplyPhase::Writing, ApplyEvent::Failed) => done(NodeOutcome::Failed(FailureKind::Write)),
        _ => done(NodeOutcome::Failed(FailureKind::Unexpected)),
    }
}

/// Brings one process to the value that its desired state asks of a
/// backend, writing only where the value enforced now differs.
#[derive(Clone, Copy, Debug, PartialEq, Eq)]
pub struct ApplyTask {
    pub backend: Backend,
    pub pid: u32,
    pub desired: DesiredState,
    pub phase: ApplyPhase,
}

impl ApplyTask {
    pub open spec fn target(self) -> Setting {
        setting_for(self.backend, self.desired)
    }

    /// Starts an apply; returns the task and its first action.
    pub fn start(backend: Backend, pid: u32, desired: DesiredState) -> (r: (ApplyTask, ApplyAction))
        ensures
            r.0.backend == backend,
            r.0.pid == pid,
            r.0.desired == desired,
            (r.0.phase, r.1) == first_step(backend),
    {
        match backend {
            Backend::Quota => (
                ApplyTask { backend, pid, desired, phase: ApplyPhase::Resolving },
                ApplyAction::Resolve,
            ),
            Backend::Priority => (
                ApplyTask { backend, pid, desired, phase: ApplyPhase::Reading },
                ApplyAction::Read,
            ),
        }
    }

    /// Takes the answer to the last action, and returns the next one.
    pub fn on_event(&mut self, event: ApplyEvent) -> (r: ApplyAction)
        ensures
            final(self).backend == old(self).backend,
            final(self).pid == old(self).pid,
            final(self).desired == old(self).desired,
            (final(self).phase, r) == apply_step(old(self).phase, old(self).target(), event),
    {
        let target = setting_value(self.backend, self.desired);
        let (phase, action) = match (self.phase, event) {
            (ApplyPhase::Resolving, ApplyEvent::Resolved) => (ApplyPhase::Reading, ApplyAction::Read),
            (ApplyPhase::Resolving, ApplyEvent::NotResolved) => (
                ApplyPhase::Finished,
                ApplyAction::Finish(NodeOutcome::NoUnit),
            ),
            (ApplyPhase::Resolving, ApplyEvent::Failed) => (
                ApplyPhase::Finished,
                ApplyAction::Finish(NodeOutcome::Failed(FailureKind::Read)),
            ),
            (ApplyPhase::Reading, ApplyEvent::Current(now)) => if now == target {
                (ApplyPhase::Finished, ApplyAction::Finish(NodeOutcome::Unchanged))
            } else {
                (ApplyPhase::Writing, ApplyAction::Write(target))
            },
            (ApplyPhase::Reading, ApplyEvent::Failed) => (
                ApplyPhase::Finished,
                ApplyAction::Finish(NodeOutcome::Failed(FailureKind::Read)),
            ),
            (ApplyPhase::Writing, ApplyEvent::Written) => (
                ApplyPhase::Finished,
                ApplyAction::Finish(NodeOutcome::Changed(target)),
            ),
            (ApplyPhase::Writing, ApplyEvent::Failed) => (
                ApplyPhase::Finished,
                ApplyAction::Finish(NodeOutcome::Failed(FailureKind::Write)),
            ),
            _ => (ApplyPhase::Finished, ApplyAction::Finish(NodeOutcome::Failed(FailureKind::Unexpected))),
        };
        self.phase = phase;
        action
    }
}

/// How work on one planned node begins.
#[derive(Clone, Copy, Debug, PartialEq, Eq)]
pub enum NodeStart {
    /// Nothing to control: the node is done.
    Done(NodeOutcome),
    /// The controller takes over, from this state and action.
    Apply(ApplyTask, ApplyAction),
}

/// Starts work on a node: a skipped node never reaches the controller.
pub fn begin(backend: Backend, plan: NodePlan) -> (r: NodeStart)
    ensures
        plan matches NodePlan::Skip(reason) ==> r == NodeStart::Done(NodeOutcome::Skipped(reason)),
        plan matches NodePlan::Control { pid, state } ==> r matches NodeStart::Apply(task, action)
            && task.backend == backend && task.pid == pid && task.desired == state && (task.phase,
            action) == first_step(backend),
{
    match plan {
        NodePlan::Skip(reason) => NodeStart::Done(NodeOutcome::Skipped(reason)),
        NodePlan::Control { pid, state } => {
            let (task, action) = ApplyTask::start(backend, pid, state);
            NodeStart::Apply(task, action)
        },
    }
}

/// Idempotent apply: where a process is already at the value of its desired
/// state, the apply finishes with success and writes nothing.
pub proof fn law_apply_at_target_writes_nothing(backend: Backend, state: DesiredState)
    ensures
        apply_step(ApplyPhase::Reading, setting_for(backend, state), ApplyEvent::Current(setting_for(backend, state)))
            == (ApplyPhase::Finished, ApplyAction::Finish(NodeOutcome::Unchanged)),
        write_needed(quota_for(state), quota_for(state)) is None,
        write_needed(priority_for(state), priority_for(state)) is None,
{
}

/// A process that no unit owns ends the apply with a notice, not a failure.
pub proof fn law_missing_unit_is_no_failure(target: Setting)
    ensures
        apply_step(ApplyPhase::Resolving, target, ApplyEvent::NotResolved) == (
            ApplyPhase::Finished,
            ApplyAction::Finish(NodeOutcome::NoUnit),
        ),
{
}

} // verus!

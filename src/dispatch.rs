//! The event loop's decisions: which window changes call for a fresh walk
//! of the tree, and how one cycle moves from waiting to fetching, walking
//! and back.

use vstd::prelude::*;

verus! {

/// The kind of change that a window event reports.
#[derive(Clone, Copy, Debug, PartialEq, Eq, Structural)]
pub enum WindowChange {
    New,
    Close,
    Focus,
    Title,
    FullscreenMode,
    Move,
    Floating,
    Urgent,
    Mark,
    Other,
}

/// Where the loop stands.
#[derive(Clone, Copy, Debug, PartialEq, Eq, Structural)]
pub enum LoopPhase {
    /// Waiting for the next event.
    Idle,
    /// Waiting for a fresh tree.
    Fetching,
    /// Walking the tree.
    Walking,
    /// The loop is over.
    Stopped,
}

/// Why the loop stopped.
#[derive(Clone, Copy, Debug, PartialEq, Eq, Structural)]
pub enum StopReason {
    StreamEnded,
    StreamFailed,
    FetchFailed,
}

/// What happened outside.
#[derive(Clone, Copy, Debug, PartialEq, Eq, Structural)]
pub enum LoopInput {
    /// A window event arrived.
    Window(WindowChange),
    /// The requested tree arrived.
    TreeReady,
    /// The tree could not be fetched.
    TreeFailed,
    /// The walk of the tree is over.
    WalkDone,
    /// The event subscription ended.
    StreamEnded,
    /// The event subscription failed.
    StreamFailed,
}

/// What the loop does next.
#[derive(Clone, Copy, Debug, PartialEq, Eq, Structural)]
pub enum LoopAction {
    /// Drop the event without fetching the tree.
    Ignore(WindowChange),
    /// Fetch a fresh tree.
    FetchTree,
    /// Walk the tree just fetched.
    Walk,
    /// Wait for the next input.
    Wait,
    /// End the process with a failure.
    Exit(StopReason),
}

/// The window changes that call for a walk.
pub open spec fn triggers(change: WindowChange) -> bool {
    match change {
        WindowChange::New | WindowChange::Move | WindowChange::Close | WindowChange::FullscreenMode
        | WindowChange::Floating | WindowChange::Focus => true,
        _ => false,
    }
}

/// One step of the loop.
pub open spec fn loop_step(phase: LoopPhase, input: LoopInput) -> (LoopPhase, LoopAction) {
    match (phase, input) {
        (LoopPhase::Stopped, _) => (LoopPhase::Stopped, LoopAction::Wait),
        (_, LoopInput::StreamEnded) => (
            LoopPhase::Stopped,
            LoopAction::Exit(StopReason::StreamEnded),
        ),
        (_, LoopInput::StreamFailed) => (
            LoopPhase::Stopped,
            LoopAction::Exit(StopReason::StreamFailed),
        ),
        (LoopPhase::Idle, LoopInput::Window(c)) => if triggers(c) {
            (LoopPhase::Fetching, LoopAction::FetchTree)
        } else {
            (LoopPhase::Idle, LoopAction::Ignore(c))
        },
        (LoopPhase::Fetching, LoopInput::TreeReady) => (LoopPhase::Walking, LoopAction::Walk),
        (LoopPhase::Fetching, LoopInput::TreeFailed) => (
            LoopPhase::Stopped,
            LoopAction::Exit(StopReason::FetchFailed),
        ),
        (LoopPhase::Walking, LoopInput::WalkDone) => (LoopPhase::Idle, LoopAction::Wait),
        _ => (phase, LoopAction::Wait),
    }
}

pub fn is_trigger(change: WindowChange) -> (r: bool)
    ensures
        r == triggers(change),
{
    match change {
        WindowChange::New | WindowChange::Move | WindowChange::Close | WindowChange::FullscreenMode
        | WindowChange::Floating | WindowChange::Focus => true,
        _ => false,
    }
}

/// The event loop, one input at a time: a walk runs to its end before the
/// next event is taken.
pub struct Dispatcher {
    pub phase: LoopPhase,
}

impl Dispatcher {
    pub fn new() -> (r: Dispatcher)
        ensures
            r.phase == LoopPhase::Idle,
    {
        Dispatcher { phase: LoopPhase::Idle }
    }

    /// Takes one input and returns what to do.
    pub fn step(&mut self, input: LoopInput) -> (r: LoopAction)
        ensures
            (final(self).phase, r) == loop_step(old(self).phase, input),
    {
        let (phase, action) = match (self.phase, input) {
            (LoopPhase::Stopped, _) => (LoopPhase::Stopped, LoopAction::Wait),
            (_, LoopInput::StreamEnded) => (
                LoopPhase::Stopped,
                LoopAction::Exit(StopReason::StreamEnded),
            ),
            (_, LoopInput::StreamFailed) => (
                LoopPhase::Stopped,
                LoopAction::Exit(StopReason::StreamFailed),
            ),
            (LoopPhase::Idle, LoopInput::Window(c)) => if is_trigger(c) {
                (LoopPhase::Fetching, LoopAction::FetchTree)
            } else {
                (LoopPhase::Idle, LoopAction::Ignore(c))
            },
            (LoopPhase::Fetching, LoopInput::TreeReady) => (LoopPhase::Walking, LoopAction::Walk),
            (LoopPhase::Fetching, LoopInput::TreeFailed) => (
                LoopPhase::Stopped,
                LoopAction::Exit(StopReason::FetchFailed),
            ),
            (LoopPhase::Walking, LoopInput::WalkDone) => (LoopPhase::Idle, LoopAction::Wait),
            (p, _) => (p, LoopAction::Wait),
        };
        self.phase = phase;
        action
    }
}

/// A window change outside the trigger set never leads to a tree fetch,
/// whatever the loop's phase; and a fetch is asked only by a triggering
/// event that finds the loop idle.
pub proof fn law_irrelevant_events_never_fetch(phase: LoopPhase, input: LoopInput)
    ensures
        forall|c: WindowChange|
            input == LoopInput::Window(c) && !triggers(c) ==> loop_step(phase, input).1
                != LoopAction::FetchTree,
        loop_step(phase, input).1 == LoopAction::FetchTree ==> phase == LoopPhase::Idle && exists|
            c: WindowChange,
        | input == LoopInput::Window(c) && triggers(c),
{
    if loop_step(phase, input).1 == LoopAction::FetchTree {
        let c = input->Window_0;
        assert(input == LoopInput::Window(c) && triggers(c));
    }
}

} // verus!

use sway_throttle::classify::{classify, desired_state, is_window, plan_tree, DesiredState, NodePlan, SkipReason};
use sway_throttle::control::{
    begin, priority_value, priority_write, setting_value, quota_value, quota_write, ApplyAction, ApplyEvent, ApplyPhase,
    ApplyTask, Backend, FailureKind, NodeOutcome, NodeStart, Setting, PRIORITY_THROTTLED,
    QUOTA_THROTTLED, QUOTA_UNBOUNDED,
};
use sway_throttle::dispatch::{is_trigger, Dispatcher, LoopAction, LoopInput, LoopPhase, StopReason, WindowChange};
use sway_throttle::report::{severity, FailurePolicy, Severity, WalkReport};
use sway_throttle::tree::{NodeKind, WindowNode, WindowTree};

fn node(kind: NodeKind, pid: Option<i32>, visible: Option<bool>) -> WindowNode {
    WindowNode { kind, pid, visible }
}

/// root -> workspace -> [container pid 100 visible, floating container pid 200 hidden]
fn scenario_tree() -> WindowTree {
    let mut t = WindowTree::new(node(NodeKind::Root, None, None));
    let ws = t.add_child(0, node(NodeKind::Workspace, None, None)).unwrap();
    t.add_child(ws, node(NodeKind::Con, Some(100), Some(true))).unwrap();
    t.add_child(ws, node(NodeKind::FloatingCon, Some(200), Some(false))).unwrap();
    t
}

/// Drives an apply to its end, answering reads with `current`.
fn run_apply(backend: Backend, pid: u32, state: DesiredState, current: Setting) -> (NodeOutcome, usize) {
    let (mut task, mut action) = ApplyTask::start(backend, pid, state);
    let mut writes = 0;
    loop {
        action = match action {
            ApplyAction::Resolve => task.on_event(ApplyEvent::Resolved),
            ApplyAction::Read => task.on_event(ApplyEvent::Current(current)),
            ApplyAction::Write(_) => {
                writes += 1;
                task.on_event(ApplyEvent::Written)
            }
            ApplyAction::Finish(o) => return (o, writes),
        }
    }
}

#[test]
fn walk_visits_each_node_once_parent_first() {
    let mut t = WindowTree::new(node(NodeKind::Root, None, None));
    let out = t.add_child(0, node(NodeKind::Output, None, None)).unwrap();
    let ws1 = t.add_child(out, node(NodeKind::Workspace, None, None)).unwrap();
    let ws2 = t.add_child(out, node(NodeKind::Workspace, None, None)).unwrap();
    let a = t.add_child(ws1, node(NodeKind::Con, Some(1), Some(true))).unwrap();
    let b = t.add_child(ws2, node(NodeKind::Con, Some(2), Some(false))).unwrap();
    let c = t.add_child(a, node(NodeKind::Con, Some(3), Some(true))).unwrap();
    let order = t.walk_order();
    assert_eq!(order, vec![0, out, ws1, a, c, ws2, b]);
}

#[test]
fn walk_of_single_node() {
    let t = WindowTree::new(node(NodeKind::Root, None, None));
    assert_eq!(t.walk_order(), vec![0]);
}

#[test]
fn add_child_rejects_unknown_parent() {
    let mut t = WindowTree::new(node(NodeKind::Root, None, None));
    assert_eq!(t.add_child(5, node(NodeKind::Con, Some(1), None)), None);
    assert_eq!(t.len(), 1);
    assert_eq!(t.add_child(0, node(NodeKind::Con, Some(1), None)), Some(1));
    assert_eq!(t.children_of(0), &vec![1]);
    assert_eq!(t.node(1).pid, Some(1));
}

#[test]
fn visibility_decides_state() {
    assert_eq!(desired_state(Some(true)), DesiredState::Unthrottled);
    assert_eq!(desired_state(Some(false)), DesiredState::Throttled);
    assert_eq!(desired_state(None), DesiredState::Throttled);
}

#[test]
fn non_windows_are_skipped() {
    for kind in [NodeKind::Root, NodeKind::Output, NodeKind::Workspace, NodeKind::Dockarea] {
        assert_eq!(classify(&node(kind, Some(7), Some(true))), NodePlan::Skip(SkipReason::NotAWindow(kind)));
    }
    assert_eq!(classify(&node(NodeKind::Con, None, Some(true))), NodePlan::Skip(SkipReason::NoProcess));
    assert_eq!(classify(&node(NodeKind::Con, Some(-4), Some(true))), NodePlan::Skip(SkipReason::InvalidPid(-4)));
    assert_eq!(
        classify(&node(NodeKind::FloatingCon, Some(9), None)),
        NodePlan::Control { pid: 9, state: DesiredState::Throttled }
    );
}

#[test]
fn skipped_node_never_reaches_controller() {
    let plan = classify(&node(NodeKind::Workspace, None, None));
    assert_eq!(
        begin(Backend::Quota, plan),
        NodeStart::Done(NodeOutcome::Skipped(SkipReason::NotAWindow(NodeKind::Workspace)))
    );
    match begin(Backend::Quota, NodePlan::Control { pid: 5, state: DesiredState::Unthrottled }) {
        NodeStart::Apply(task, action) => {
            assert_eq!(task.pid, 5);
            assert_eq!(action, ApplyAction::Resolve);
        }
        NodeStart::Done(_) => panic!("a controllable node must reach the controller"),
    }
}

#[test]
fn quota_and_priority_values() {
    assert_eq!(quota_value(DesiredState::Unthrottled), u64::MAX);
    assert_eq!(quota_value(DesiredState::Throttled), 100000);
    assert_eq!(quota_write(u64::MAX, DesiredState::Unthrottled), None);
    assert_eq!(quota_write(100000, DesiredState::Unthrottled), Some(QUOTA_UNBOUNDED));
    assert_eq!(quota_write(u64::MAX, DesiredState::Throttled), Some(QUOTA_THROTTLED));
    assert_eq!(priority_write(0, DesiredState::Throttled), Some(PRIORITY_THROTTLED));
    assert_eq!(priority_write(PRIORITY_THROTTLED, DesiredState::Throttled), None);
}

#[test]
fn apply_at_target_writes_nothing() {
    let (o, writes) = run_apply(Backend::Quota, 1, DesiredState::Throttled, Setting::CpuQuota(100000));
    assert_eq!((o, writes), (NodeOutcome::Unchanged, 0));
    let (o, writes) = run_apply(Backend::Priority, 1, DesiredState::Unthrottled, Setting::Priority(0));
    assert_eq!((o, writes), (NodeOutcome::Unchanged, 0));
    let (o, writes) = run_apply(Backend::Priority, 1, DesiredState::Throttled, Setting::Priority(0));
    assert_eq!((o, writes), (NodeOutcome::Changed(Setting::Priority(PRIORITY_THROTTLED)), 1));
}

#[test]
fn focus_event_scenario() {
    let mut d = Dispatcher::new();
    assert_eq!(d.step(LoopInput::Window(WindowChange::Focus)), LoopAction::FetchTree);
    assert_eq!(d.step(LoopInput::TreeReady), LoopAction::Walk);
    let plan = plan_tree(&scenario_tree());
    let controlled: Vec<NodePlan> =
        plan.iter().map(|p| p.plan).filter(|p| matches!(p, NodePlan::Control { .. })).collect();
    assert_eq!(
        controlled,
        vec![
            NodePlan::Control { pid: 100, state: DesiredState::Unthrottled },
            NodePlan::Control { pid: 200, state: DesiredState::Throttled },
        ]
    );
    // container 100 already unthrottled, 200 not yet throttled
    let (o100, w100) = run_apply(Backend::Quota, 100, DesiredState::Unthrottled, Setting::CpuQuota(u64::MAX));
    let (o200, w200) = run_apply(Backend::Quota, 200, DesiredState::Throttled, Setting::CpuQuota(u64::MAX));
    assert_eq!((o100, w100), (NodeOutcome::Unchanged, 0));
    assert_eq!((o200, w200), (NodeOutcome::Changed(Setting::CpuQuota(100000)), 1));
    assert_eq!(d.step(LoopInput::WalkDone), LoopAction::Wait);
    assert_eq!(d.phase, LoopPhase::Idle);
}

#[test]
fn container_without_pid_is_skipped_and_siblings_go_on() {
    let mut t = WindowTree::new(node(NodeKind::Root, None, None));
    let ws = t.add_child(0, node(NodeKind::Workspace, None, None)).unwrap();
    t.add_child(ws, node(NodeKind::Con, None, Some(true))).unwrap();
    t.add_child(ws, node(NodeKind::Con, Some(300), Some(true))).unwrap();
    let plan = plan_tree(&t);
    let mut report = WalkReport::new(FailurePolicy::AbortOnFirst);
    let mut started = Vec::new();
    for p in plan.iter() {
        let outcome = match begin(Backend::Quota, p.plan) {
            NodeStart::Done(o) => o,
            NodeStart::Apply(task, _) => {
                started.push(task.pid);
                NodeOutcome::Unchanged
            }
        };
        assert!(report.record(p.index, outcome));
    }
    assert_eq!(started, vec![300]);
    assert_eq!(report.entries()[2], (2, NodeOutcome::Skipped(SkipReason::NoProcess)));
    assert_eq!(severity(&report.entries()[2].1), Severity::Debug);
    assert_eq!(report.failure_count(), 0);
}

#[test]
fn quota_without_unit_continues() {
    let (mut task, action) = ApplyTask::start(Backend::Quota, 42, DesiredState::Throttled);
    assert_eq!(action, ApplyAction::Resolve);
    assert_eq!(task.on_event(ApplyEvent::NotResolved), ApplyAction::Finish(NodeOutcome::NoUnit));
    assert_eq!(task.phase, ApplyPhase::Finished);
    let mut report = WalkReport::new(FailurePolicy::AbortOnFirst);
    assert!(report.record(3, NodeOutcome::NoUnit));
    assert!(report.record(4, NodeOutcome::Unchanged));
    assert!(!report.is_aborted());
    assert_eq!(severity(&NodeOutcome::NoUnit), Severity::Info);
}

#[test]
fn failures_follow_policy() {
    let mut keep = WalkReport::new(FailurePolicy::Continue);
    assert!(keep.record(1, NodeOutcome::Failed(FailureKind::Write)));
    assert!(keep.record(2, NodeOutcome::Failed(FailureKind::Read)));
    assert_eq!(keep.failure_count(), 2);
    let mut strict = WalkReport::new(FailurePolicy::AbortOnFirst);
    assert!(strict.record(1, NodeOutcome::Changed(Setting::CpuQuota(1))));
    assert!(!strict.record(2, NodeOutcome::Failed(FailureKind::Write)));
    assert!(!strict.record(3, NodeOutcome::Unchanged));
    assert_eq!(strict.entries().len(), 2);
    assert_eq!(severity(&NodeOutcome::Failed(FailureKind::Write)), Severity::Warn);
}

#[test]
fn apply_failures_and_unexpected_answers() {
    let (mut task, _) = ApplyTask::start(Backend::Priority, 8, DesiredState::Throttled);
    assert_eq!(task.on_event(ApplyEvent::Current(Setting::Priority(0))), ApplyAction::Write(Setting::Priority(10)));
    assert_eq!(task.on_event(ApplyEvent::Failed), ApplyAction::Finish(NodeOutcome::Failed(FailureKind::Write)));
    let (mut task, _) = ApplyTask::start(Backend::Quota, 8, DesiredState::Throttled);
    assert_eq!(task.on_event(ApplyEvent::Written), ApplyAction::Finish(NodeOutcome::Failed(FailureKind::Unexpected)));
    let (mut task, _) = ApplyTask::start(Backend::Quota, 8, DesiredState::Throttled);
    assert_eq!(task.on_event(ApplyEvent::Failed), ApplyAction::Finish(NodeOutcome::Failed(FailureKind::Read)));
}

#[test]
fn irrelevant_events_never_fetch() {
    for c in [WindowChange::Title, WindowChange::Urgent, WindowChange::Mark, WindowChange::Other] {
        assert!(!is_trigger(c));
        let mut d = Dispatcher::new();
        assert_eq!(d.step(LoopInput::Window(c)), LoopAction::Ignore(c));
        assert_eq!(d.phase, LoopPhase::Idle);
    }
    for c in [
        WindowChange::New,
        WindowChange::Move,
        WindowChange::Close,
        WindowChange::FullscreenMode,
        WindowChange::Floating,
        WindowChange::Focus,
    ] {
        assert!(is_trigger(c));
    }
}

#[test]
fn loop_stops_on_stream_end_and_fetch_failure() {
    let mut d = Dispatcher::new();
    assert_eq!(d.step(LoopInput::StreamEnded), LoopAction::Exit(StopReason::StreamEnded));
    assert_eq!(d.step(LoopInput::Window(WindowChange::Focus)), LoopAction::Wait);
    let mut d = Dispatcher::new();
    d.step(LoopInput::Window(WindowChange::New));
    assert_eq!(d.step(LoopInput::TreeFailed), LoopAction::Exit(StopReason::FetchFailed));
    assert_eq!(d.phase, LoopPhase::Stopped);
    let mut d = Dispatcher::new();
    d.step(LoopInput::Window(WindowChange::New));
    // an event while a fetch is pending is not taken
    assert_eq!(d.step(LoopInput::Window(WindowChange::Close)), LoopAction::Wait);
    assert_eq!(d.phase, LoopPhase::Fetching);
}

#[test]
fn backend_settings() {
    assert_eq!(priority_value(DesiredState::Unthrottled), 0);
    assert_eq!(priority_value(DesiredState::Throttled), 10);
    assert_eq!(setting_value(Backend::Quota, DesiredState::Unthrottled), Setting::CpuQuota(u64::MAX));
    assert_eq!(setting_value(Backend::Priority, DesiredState::Throttled), Setting::Priority(10));
    assert!(is_window(NodeKind::Con));
    assert!(is_window(NodeKind::FloatingCon));
    assert!(!is_window(NodeKind::Other));
    let (_, first) = ApplyTask::start(Backend::Priority, 3, DesiredState::Throttled);
    assert_eq!(first, ApplyAction::Read);
}

//! Which nodes stand for a window-owning process, and what allowance each
//! of them should get.

use vstd::prelude::*;
use crate::tree::{NodeKind, WindowNode, WindowTree};

verus! {

/// The two-level policy: a window runs unconstrained or throttled.
#[derive(Clone, Copy, Debug, PartialEq, Eq, Structural)]
pub enum DesiredState {
    Unthrottled,
    Throttled,
}

/// Why a node is passed over.
#[derive(Clone, Copy, Debug, PartialEq, Eq)]
pub enum SkipReason {
    /// A workspace, an output, the root or another non-window node.
    NotAWindow(NodeKind),
    /// A container that carries no process identifier.
    NoProcess,
    /// A process identifier that no process can have.
    InvalidPid(i32),
}

/// What the governor does with one node.
#[derive(Clone, Copy, Debug, PartialEq, Eq)]
pub enum NodePlan {
    Control { pid: u32, state: DesiredState },
    Skip(SkipReason),
}

/// One node of a walk, with its plan.
#[derive(Clone, Copy, Debug, PartialEq, Eq)]
pub struct PlannedNode {
    pub index: usize,
    pub plan: NodePlan,
}

/// Visible windows run unthrottled; hidden ones, and those whose visibility
/// is unknown, are throttled.
pub open spec fn desired_for(visible: Option<bool>) -> DesiredState {
    if visible == Some(true) {
        DesiredState::Unthrottled
    } else {
        DesiredState::Throttled
    }
}

pub open spec fn is_window_kind(kind: NodeKind) -> bool {
    kind == NodeKind::Con || kind == NodeKind::FloatingCon
}

/// A node is controllable when it is a (floating) container with a process.
pub open spec fn plan_for(node: WindowNode) -> NodePlan {
    if !is_window_kind(node.kind) {
        NodePlan::Skip(SkipReason::NotAWindow(node.kind))
    } else {
        match node.pid {
            None => NodePlan::Skip(SkipReason::NoProcess),
            Some(p) => if p < 0 {
                NodePlan::Skip(SkipReason::InvalidPid(p))
            } else {
                NodePlan::Control { pid: p as u32, state: desired_for(node.visible) }
            },
        }
    }
}

pub fn desired_state(visible: Option<bool>) -> (r: DesiredState)
    ensures
        r == desired_for(visible),
{
    match visible {
        Some(true) => DesiredState::Unthrottled,
        _ => DesiredState::Throttled,
    }
}

pub fn is_window(kind: NodeKind) -> (r: bool)
    ensures
        r == is_window_kind(kind),
{
    match kind {
        NodeKind::Con | NodeKind::FloatingCon => true,
        _ => false,
    }
}

/// Decides what to do with one node.
pub fn classify(node: &WindowNode) -> (r: NodePlan)
    ensures
        r == plan_for(*node),
{
    if !is_window(node.kind) {
        return NodePlan::Skip(SkipReason::NotAWindow(node.kind));
    }
    match node.pid {
        None => NodePlan::Skip(SkipReason::NoProcess),
        Some(p) => if p < 0 {
            NodePlan::Skip(SkipReason::InvalidPid(p))
        } else {
            NodePlan::Control { pid: p as u32, state: desired_state(node.visible) }
        },
    }
}

/// The indices of a plan, in order.
pub open spec fn plan_indices(plan: Seq<PlannedNode>) -> Seq<usize> {
    plan.map_values(|p: PlannedNode| p.index)
}

/// Walks the tree and plans every node, in preorder.
pub fn plan_tree(tree: &WindowTree) -> (r: Vec<PlannedNode>)
    requires
        tree.wf(),
    ensures
        tree.is_walk(plan_indices(r@)),
        plan_indices(r@) == tree.preorder(0),
        forall|k: int|
            0 <= k < r@.len() ==> (#[trigger] r@[k]).plan == plan_for(
                tree.node_at(r@[k].index as int),
            ),
{
    let order = tree.walk_order();
    let mut r: Vec<PlannedNode> = Vec::new();
    let mut i: usize = 0;
    while i < order.len()
        invariant
            tree.is_walk(order@),
            order@ == tree.preorder(0),
            i <= order@.len(),
            r@.len() == i,
            forall|k: int| 0 <= k < i ==> (#[trigger] r@[k]).index == order@[k],
            forall|k: int|
                0 <= k < i ==> (#[trigger] r@[k]).plan == plan_for(tree.node_at(r@[k].index as int)),
        decreases order@.len() - i,
    {
        let index = order[i];
        let node = tree.node(index);
        r.push(PlannedNode { index, plan: classify(&node) });
        i = i + 1;
    }
    assert(plan_indices(r@) =~= order@);
    r
}

/// A visible window is planned unthrottled; one that is hidden, or whose
/// visibility is unknown, is planned throttled.
pub proof fn law_visibility_decides(node: WindowNode)
    requires
        plan_for(node) is Control,
    ensures
        node.visible == Some(true) ==> plan_for(node)->state == DesiredState::Unthrottled,
        node.visible != Some(true) ==> plan_for(node)->state == DesiredState::Throttled,
{
}

/// Only a container or floating container with a process identifier is
/// ever handed to a resource controller; workspaces, outputs, the root and
/// containers without a process are skipped.
pub proof fn law_only_windows_controlled(node: WindowNode)
    ensures
        plan_for(node) is Control ==> is_window_kind(node.kind) && node.pid is Some,
        !is_window_kind(node.kind) ==> plan_for(node) is Skip,
        node.pid is None ==> plan_for(node) is Skip,
{
}

} // verus!

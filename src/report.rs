//! Per-node results of one walk: how each is logged, and whether the walk
//! goes on after a failure.

use vstd::prelude::*;
use crate::control::NodeOutcome;

verus! {

/// What the walk does when work on a node fails.
#[derive(Clone, Copy, Debug, PartialEq, Eq, Structural)]
pub enum FailurePolicy {
    /// Go on with the other nodes and report each failure.
    Continue,
    /// Stop at the first failure.
    AbortOnFirst,
}

/// How loudly an outcome is logged.
#[derive(Clone, Copy, Debug, PartialEq, Eq, Structural)]
pub enum Severity {
    Debug,
    Info,
    Warn,
}

/// Only a failed read or write counts as a failure; a skipped node or a
/// process without a unit is expected.
pub open spec fn is_failure(outcome: NodeOutcome) -> bool {
    outcome is Failed
}

pub open spec fn severity_for(outcome: NodeOutcome) -> Severity {
    match outcome {
        NodeOutcome::Skipped(_) => Severity::Debug,
        NodeOutcome::Unchanged => Severity::Debug,
        NodeOutcome::NoUnit => Severity::Info,
        NodeOutcome::Changed(_) => Severity::Info,
        NodeOutcome::Failed(_) => Severity::Warn,
    }
}

pub fn failure(outcome: &NodeOutcome) -> (r: bool)
    ensures
        r == is_failure(*outcome),
{
    match outcome {
        NodeOutcome::Failed(_) => true,
        _ => false,
    }
}

pub fn severity(outcome: &NodeOutcome) -> (r: Severity)
    ensures
        r == severity_for(*outcome),
{
    match outcome {
        NodeOutcome::Skipped(_) => Severity::Debug,
        NodeOutcome::Unchanged => Severity::Debug,
        NodeOutcome::NoUnit => Severity::Info,
        NodeOutcome::Changed(_) => Severity::Info,
        NodeOutcome::Failed(_) => Severity::Warn,
    }
}

/// Whether the walk stops once `outcome` is recorded under `policy`.
pub open spec fn stops_after(policy: FailurePolicy, outcome: NodeOutcome) -> bool {
    policy == FailurePolicy::AbortOnFirst && is_failure(outcome)
}

/// Number of failures among `entries`.
pub open spec fn count_failures(entries: Seq<(usize, NodeOutcome)>) -> nat
    decreases entries.len(),
{
    if entries.len() == 0 {
        0
    } else {
        count_failures(entries.drop_last()) + if is_failure(entries.last().1) {
            1nat
        } else {
            0nat
        }
    }
}

/// The outcomes of one walk, node by node, in the order of the walk.
pub struct WalkReport {
    entries: Vec<(usize, NodeOutcome)>,
    policy: FailurePolicy,
    aborted: bool,
}

impl WalkReport {
    /// The node indices and outcomes recorded so far.
    pub closed spec fn entries_of(self) -> Seq<(usize, NodeOutcome)> {
        self.entries@
    }

    pub closed spec fn policy_of(self) -> FailurePolicy {
        self.policy
    }

    pub closed spec fn aborted_of(self) -> bool {
        self.aborted
    }

    pub fn new(policy: FailurePolicy) -> (r: WalkReport)
        ensures
            r.entries_of().len() == 0,
            r.policy_of() == policy,
            !r.aborted_of(),
    {
        WalkReport { entries: Vec::new(), policy, aborted: false }
    }

    /// Records how work on node `index` ended, and says whether the walk
    /// goes on. Once the walk is aborted, nothing more is recorded.
    pub fn record(&mut self, index: usize, outcome: NodeOutcome) -> (go_on: bool)
        ensures
            final(self).policy_of() == old(self).policy_of(),
            old(self).aborted_of() ==> final(self).entries_of() == old(self).entries_of()
                && final(self).aborted_of() && !go_on,
            !old(self).aborted_of() ==> final(self).entries_of() == old(self).entries_of().push(
                (index, outcome),
            ) && final(self).aborted_of() == stops_after(old(self).policy_of(), outcome),
            go_on == !final(self).aborted_of(),
    {
        if self.aborted {
            return false;
        }
        self.entries.push((index, outcome));
        if failure(&outcome) {
            match self.policy {
                FailurePolicy::AbortOnFirst => {
                    self.aborted = true;
                },
                FailurePolicy::Continue => {},
            }
        }
        !self.aborted
    }

    pub fn is_aborted(&self) -> (r: bool)
        ensures
            r == self.aborted_of(),
    {
        self.aborted
    }

    pub fn entries(&self) -> (r: &Vec<(usize, NodeOutcome)>)
        ensures
            r@ == self.entries_of(),
    {
        &self.entries
    }

    /// Number of nodes whose work failed.
    pub fn failure_count(&self) -> (r: usize)
        ensures
            r == count_failures(self.entries_of()),
    {
        let mut n: usize = 0;
        let mut i: usize = 0;
        while i < self.entries.len()
            invariant
                i <= self.entries@.len(),
                n == count_failures(self.entries@.subrange(0, i as int)),
                n <= i,
            decreases self.entries@.len() - i,
        {
            assert(self.entries@.subrange(0, i + 1).drop_last() =~= self.entries@.subrange(0, i as int));
            if failure(&self.entries[i].1) {
                n = n + 1;
            }
            i = i + 1;
        }
        assert(self.entries@.subrange(0, i as int) =~= self.entries@);
        n
    }
}

/// Under the continuing policy a failure never stops the walk; under
/// either policy a skipped node, a process without a unit or one already at
/// its target never does.
pub proof fn law_failures_stop_only_when_asked(policy: FailurePolicy, outcome: NodeOutcome)
    ensures
        policy == FailurePolicy::Continue ==> !stops_after(policy, outcome),
        outcome is Skipped ==> !stops_after(policy, outcome),
        outcome is NoUnit ==> !stops_after(policy, outcome),
        outcome is Unchanged ==> !stops_after(policy, outcome),
{
}

} // verus!

//! The recovery orchestrator: the set of nodes that wait to be recovered,
//! and for each node the path from running over unreachable and recovering
//! back to running.
//!
//! Stopping and starting pumps, rebuilding channels and asking a peer for its
//! leader are left to the caller. It hands in what happened and is told what
//! to do next.

use std::collections::HashMap;
use vstd::prelude::*;
use crate::error::KvError;
use crate::nodes::NodeId;

verus! {

broadcast use vstd::std_specs::hash::group_hash_axioms;

/// The marked nodes after `node` has been marked: added at the end, unless
/// it was marked before.
pub open spec fn marked(pending: Seq<NodeId>, node: NodeId) -> Seq<NodeId> {
    if pending.contains(node) {
        pending
    } else {
        pending.push(node)
    }
}

/// The nodes that are marked unreachable and wait to be recovered, in the
/// order in which they were marked. No node waits twice.
pub struct PendingRecovery {
    nodes: Vec<NodeId>,
}

impl View for PendingRecovery {
    type V = Seq<NodeId>;

    closed spec fn view(&self) -> Seq<NodeId> {
        self.nodes@
    }
}

impl PendingRecovery {
    #[verifier::type_invariant]
    spec fn no_node_twice(self) -> bool {
        self.nodes@.no_duplicates()
    }

    /// No node waits.
    pub fn new() -> (pending: Self)
        ensures
            pending@ == Seq::<NodeId>::empty(),
    {
        PendingRecovery { nodes: Vec::new() }
    }

    /// The number of nodes that wait.
    pub fn len(&self) -> (n: usize)
        ensures
            n == self@.len(),
            self@.no_duplicates(),
    {
        proof {
            use_type_invariant(self);
        }
        self.nodes.len()
    }

    /// Whether `node` waits to be recovered.
    pub fn contains(&self, node: NodeId) -> (found: bool)
        ensures
            found == self@.contains(node),
    {
        let mut i: usize = 0;
        while i < self.nodes.len()
            invariant
                i <= self.nodes.len(),
                forall|j: int| 0 <= j < i ==> self.nodes[j] != node,
            decreases self.nodes.len() - i,
        {
            if self.nodes[i] == node {
                return true;
            }
            i += 1;
        }
        false
    }

    /// Marks `node` unreachable. A node that is marked already stays where
    /// it is.
    pub fn mark_unreachable(&mut self, node: NodeId)
        ensures
            final(self)@ == marked(old(self)@, node),
    {
        proof {
            use_type_invariant(&*self);
        }
        if !self.contains(node) {
            let mut nodes: Vec<NodeId> = Vec::new();
            std::mem::swap(&mut nodes, &mut self.nodes);
            nodes.push(node);
            self.nodes = nodes;
        }
    }

    /// Takes out the node that has waited longest, if any waits.
    pub fn take_next(&mut self) -> (next: Option<NodeId>)
        ensures
            next == (if old(self)@.len() == 0 {
                None
            } else {
                Some(old(self)@[0])
            }),
            final(self)@ == (if old(self)@.len() == 0 {
                old(self)@
            } else {
                old(self)@.drop_first()
            }),
    {
        proof {
            use_type_invariant(&*self);
        }
        if self.nodes.len() == 0 {
            None
        } else {
            let mut nodes: Vec<NodeId> = Vec::new();
            std::mem::swap(&mut nodes, &mut self.nodes);
            let node = nodes.remove(0);
            assert(nodes@ =~= old(self)@.drop_first());
            self.nodes = nodes;
            Some(node)
        }
    }
}

/// How often the orchestrator checks for a leader before it gives a node up:
/// once after the first settle wait, and once more after a second.
pub const SETTLE_CHECKS: u8 = 2;

/// Where a node stands for the orchestrator.
#[derive(Clone, Copy, Debug, PartialEq, Eq, Structural)]
pub enum NodeStatus {
    /// The node serves.
    Running,
    /// The node was reported unreachable and waits to be recovered.
    Unreachable,
    /// The node was restarted; `checks_left` checks for a leader remain.
    Recovering { checks_left: u8 },
    /// The node could not be brought back. It serves no more.
    Failed,
}

/// What happened to a node.
#[derive(Clone, Copy, Debug, PartialEq, Eq, Structural)]
pub enum RecoveryEvent {
    /// A pump could not deliver to the node's inbox.
    SendFailed,
    /// An operator or a test harness marked the node failed.
    MarkedFailed,
    /// The orchestrator took the node out of the pending set.
    Taken,
    /// After a settle wait, a peer named the leader it knows.
    LeaderKnown(NodeId),
    /// After a settle wait, the peer knew no leader.
    LeaderUnknown,
}

/// What the orchestrator does next for a node.
#[derive(Clone, Copy, Debug, PartialEq, Eq, Structural)]
pub enum RecoveryAction {
    /// Nothing.
    Nothing,
    /// Put the node into the pending set.
    MarkUnreachable,
    /// Restart the node as `restart_steps` says, then wait for the settle
    /// delay and ask a peer for its leader.
    RestartAndSettle,
    /// Wait for the settle delay once more and ask a peer for its leader.
    SettleAgain,
    /// Replace the node's entry in the directory by the new handle and pump.
    ReplaceMember,
    /// Report to the operator that the node could not be recovered.
    ReportFailure,
}

/// The next status of a node and what the orchestrator does, given what
/// happened.
pub open spec fn recovery_step(status: NodeStatus, event: RecoveryEvent) -> (
    NodeStatus,
    RecoveryAction,
) {
    match (status, event) {
        (NodeStatus::Running, RecoveryEvent::SendFailed) => (
            NodeStatus::Unreachable,
            RecoveryAction::MarkUnreachable,
        ),
        (NodeStatus::Running, RecoveryEvent::MarkedFailed) => (
            NodeStatus::Unreachable,
            RecoveryAction::MarkUnreachable,
        ),
        (NodeStatus::Unreachable, RecoveryEvent::Taken) => (
            NodeStatus::Recovering { checks_left: SETTLE_CHECKS },
            RecoveryAction::RestartAndSettle,
        ),
        (NodeStatus::Recovering { checks_left }, RecoveryEvent::LeaderKnown(_)) => (
            NodeStatus::Running,
            RecoveryAction::ReplaceMember,
        ),
        (NodeStatus::Recovering { checks_left }, RecoveryEvent::LeaderUnknown) => if checks_left
            > 1 {
            (
                NodeStatus::Recovering { checks_left: (checks_left - 1) as u8 },
                RecoveryAction::SettleAgain,
            )
        } else {
            (NodeStatus::Failed, RecoveryAction::ReportFailure)
        },
        _ => (status, RecoveryAction::Nothing),
    }
}

/// Advances one node by one event: from running to unreachable when a send
/// to it fails or it is marked failed; from unreachable to recovering when
/// the orchestrator takes it up; from recovering back to running once a peer
/// names a leader. Where the peer knows no leader the settle wait is
/// repeated once; after that the node has failed. An event that does not
/// belong to the status changes nothing.
pub fn on_event(status: NodeStatus, event: RecoveryEvent) -> (next: (NodeStatus, RecoveryAction))
    ensures
        next == recovery_step(status, event),
{
    match status {
        NodeStatus::Running => match event {
            RecoveryEvent::SendFailed => (NodeStatus::Unreachable, RecoveryAction::MarkUnreachable),
            RecoveryEvent::MarkedFailed => (
                NodeStatus::Unreachable,
                RecoveryAction::MarkUnreachable,
            ),
            _ => (status, RecoveryAction::Nothing),
        },
        NodeStatus::Unreachable => match event {
            RecoveryEvent::Taken => (
                NodeStatus::Recovering { checks_left: SETTLE_CHECKS },
                RecoveryAction::RestartAndSettle,
            ),
            _ => (status, RecoveryAction::Nothing),
        },
        NodeStatus::Recovering { checks_left } => match event {
            RecoveryEvent::LeaderKnown(_) => (NodeStatus::Running, RecoveryAction::ReplaceMember),
            RecoveryEvent::LeaderUnknown => {
                if checks_left > 1 {
                    (
                        NodeStatus::Recovering { checks_left: checks_left - 1 },
                        RecoveryAction::SettleAgain,
                    )
                } else {
                    (NodeStatus::Failed, RecoveryAction::ReportFailure)
                }
            },
            _ => (status, RecoveryAction::Nothing),
        },
        NodeStatus::Failed => (status, RecoveryAction::Nothing),
    }
}

/// The error that a status stands for: a failed node is reported as
/// `RecoveryFailed`, a node that is unreachable or recovering as
/// `PeerUnreachable`, a running node as none.
pub open spec fn status_error(status: NodeStatus) -> Option<KvError> {
    match status {
        NodeStatus::Running => None,
        NodeStatus::Unreachable => Some(KvError::PeerUnreachable),
        NodeStatus::Recovering { .. } => Some(KvError::PeerUnreachable),
        NodeStatus::Failed => Some(KvError::RecoveryFailed),
    }
}

/// The error that a status stands for.
pub fn error_of(status: NodeStatus) -> (error: Option<KvError>)
    ensures
        error == status_error(status),
{
    match status {
        NodeStatus::Running => None,
        NodeStatus::Unreachable => Some(KvError::PeerUnreachable),
        NodeStatus::Recovering { .. } => Some(KvError::PeerUnreachable),
        NodeStatus::Failed => Some(KvError::RecoveryFailed),
    }
}

/// One step of restarting a node.
#[derive(Clone, Copy, Debug, PartialEq, Eq, Structural)]
pub enum RestartStep {
    /// Stop the node's old pump task.
    StopPump,
    /// Build a fresh set of inbound and outbound channels for the node.
    RebuildChannels,
    /// Tell the node's handle that it resumes after a possible crash.
    FailRecovery,
    /// Tell the node's handle that the connection to a peer is restored.
    Reconnected(NodeId),
    /// Start a new pump on the fresh channels.
    SpawnPump,
}

/// The steps that restart a node, in order: stop the old pump, rebuild the
/// channels, signal the recovery, signal the reconnection to every peer,
/// start the new pump.
pub open spec fn restart_plan(peers: Seq<NodeId>) -> Seq<RestartStep> {
    seq![RestartStep::StopPump, RestartStep::RebuildChannels, RestartStep::FailRecovery]
        + peers.map_values(|peer: NodeId| RestartStep::Reconnected(peer)) + seq![
        RestartStep::SpawnPump,
    ]
}

/// Lists the steps that restart a node with the given peers.
pub fn restart_steps(peers: &Vec<NodeId>) -> (steps: Vec<RestartStep>)
    ensures
        steps@ == restart_plan(peers@),
{
    let mut steps: Vec<RestartStep> = Vec::new();
    steps.push(RestartStep::StopPump);
    steps.push(RestartStep::RebuildChannels);
    steps.push(RestartStep::FailRecovery);
    let ghost head = steps@;
    let ghost signal = |peer: NodeId| RestartStep::Reconnected(peer);
    let mut i: usize = 0;
    while i < peers.len()
        invariant
            i <= peers.len(),
            head == seq![
                RestartStep::StopPump,
                RestartStep::RebuildChannels,
                RestartStep::FailRecovery,
            ],
            signal == |peer: NodeId| RestartStep::Reconnected(peer),
            steps@ == head + peers@.take(i as int).map_values(signal),
        decreases peers.len() - i,
    {
        steps.push(RestartStep::Reconnected(peers[i]));
        assert(steps@ =~= head + peers@.take(i as int + 1).map_values(signal));
        i += 1;
    }
    assert(peers@.take(peers.len() as int) =~= peers@);
    steps.push(RestartStep::SpawnPump);
    steps
}

/// What the orchestrator knows: the status of each node, and the nodes that
/// wait to be recovered in the order in which they were reported.
pub struct OrchestratorView {
    pub statuses: Map<NodeId, NodeStatus>,
    pub pending: Seq<NodeId>,
}

/// The nodes that wait are exactly the nodes whose status is unreachable,
/// and none waits twice.
pub open spec fn consistent(v: OrchestratorView) -> bool {
    &&& v.pending.no_duplicates()
    &&& forall|node: NodeId|
        v.pending.contains(node) <==> (#[trigger] v.statuses.contains_key(node)
            && v.statuses[node] == NodeStatus::Unreachable)
}

/// What the orchestrator knows after something was observed of `node`, and
/// what it does. A node that becomes unreachable joins the end of the
/// waiting nodes. Nothing changes for a node that the orchestrator does not
/// know, nor by `Taken`, which only the orchestrator itself brings about.
pub open spec fn observed(v: OrchestratorView, node: NodeId, event: RecoveryEvent) -> (
    OrchestratorView,
    RecoveryAction,
) {
    if !v.statuses.contains_key(node) || event is Taken {
        (v, RecoveryAction::Nothing)
    } else {
        let (next, action) = recovery_step(v.statuses[node], event);
        (
            OrchestratorView {
                statuses: v.statuses.insert(node, next),
                pending: if action == RecoveryAction::MarkUnreachable {
                    v.pending.push(node)
                } else {
                    v.pending
                },
            },
            action,
        )
    }
}

/// What the orchestrator knows after it has taken up the node that has
/// waited longest, and that node, if any waits.
pub open spec fn taken_up(v: OrchestratorView) -> (OrchestratorView, Option<NodeId>) {
    if v.pending.len() == 0 {
        (v, None)
    } else {
        let node = v.pending[0];
        (
            OrchestratorView {
                statuses: v.statuses.insert(
                    node,
                    recovery_step(NodeStatus::Unreachable, RecoveryEvent::Taken).0,
                ),
                pending: v.pending.drop_first(),
            },
            Some(node),
        )
    }
}

/// An observation keeps the waiting nodes and the statuses consistent, and
/// neither adds a node nor drops one.
pub proof fn lemma_observed_consistent(v: OrchestratorView, node: NodeId, event: RecoveryEvent)
    requires
        consistent(v),
    ensures
        consistent(observed(v, node, event).0),
        observed(v, node, event).0.statuses.dom() == v.statuses.dom(),
{
    let after = observed(v, node, event).0;
    if v.statuses.contains_key(node) && !(event is Taken) {
        let (next, action) = recovery_step(v.statuses[node], event);
        assert(after.statuses.dom() =~= v.statuses.dom());
        if action == RecoveryAction::MarkUnreachable {
            assert(v.statuses[node] == NodeStatus::Running);
            assert(!v.pending.contains(node));
            assert forall|other: NodeId|
                after.pending.contains(other) <==> (#[trigger] after.statuses.contains_key(other)
                    && after.statuses[other] == NodeStatus::Unreachable) by {
                if after.pending.contains(other) {
                    let i = choose|i: int| 0 <= i < after.pending.len() && after.pending[i] == other;
                    if i < v.pending.len() {
                        assert(v.pending[i] == other);
                        assert(v.pending.contains(other));
                    }
                }
                if other == node {
                    assert(after.pending[v.pending.len() as int] == node);
                } else if v.pending.contains(other) {
                    let i = choose|i: int| 0 <= i < v.pending.len() && v.pending[i] == other;
                    assert(after.pending[i] == other);
                }
            }
        } else {
            assert(next == NodeStatus::Unreachable <==> v.statuses[node]
                == NodeStatus::Unreachable);
            assert forall|other: NodeId|
                after.pending.contains(other) <==> (#[trigger] after.statuses.contains_key(other)
                    && after.statuses[other] == NodeStatus::Unreachable) by {
                assert(v.pending.contains(other) <==> (v.statuses.contains_key(other)
                    && v.statuses[other] == NodeStatus::Unreachable));
            }
        }
    }
}

/// Taking a node up keeps the waiting nodes and the statuses consistent:
/// the node is recovering and waits no more.
pub proof fn lemma_taken_up_consistent(v: OrchestratorView)
    requires
        consistent(v),
    ensures
        consistent(taken_up(v).0),
        taken_up(v).0.statuses.dom() == v.statuses.dom(),
        taken_up(v).1 matches Some(node) ==> v.statuses.contains_key(node) && v.statuses[node]
            == NodeStatus::Unreachable && taken_up(v).0.statuses[node] is Recovering,
{
    if v.pending.len() > 0 {
        let node = v.pending[0];
        let after = taken_up(v).0;
        assert(v.pending.contains(node));
        assert(after.statuses.dom() =~= v.statuses.dom());
        assert forall|other: NodeId|
            after.pending.contains(other) <==> (#[trigger] after.statuses.contains_key(other)
                && after.statuses[other] == NodeStatus::Unreachable) by {
            assert(v.pending.contains(other) <==> (v.statuses.contains_key(other)
                && v.statuses[other] == NodeStatus::Unreachable));
            if after.pending.contains(other) {
                let i = choose|i: int| 0 <= i < after.pending.len() && after.pending[i] == other;
                assert(v.pending[i + 1] == other);
                assert(other != node);
            }
            if other != node && v.pending.contains(other) {
                let i = choose|i: int| 0 <= i < v.pending.len() && v.pending[i] == other;
                assert(after.pending[i - 1] == other);
            }
        }
    }
}

/// The recovery orchestrator: the status of every node of the cluster and
/// the nodes that wait to be recovered.
pub struct Orchestrator {
    statuses: HashMap<NodeId, NodeStatus>,
    pending: PendingRecovery,
}

impl View for Orchestrator {
    type V = OrchestratorView;

    closed spec fn view(&self) -> OrchestratorView {
        OrchestratorView { statuses: self.statuses@, pending: self.pending@ }
    }
}

impl Orchestrator {
    #[verifier::type_invariant]
    spec fn waiting_are_unreachable(self) -> bool {
        consistent(self@)
    }

    /// An orchestrator for `nodes`, all of them running and none waiting.
    pub fn new(nodes: &Vec<NodeId>) -> (orchestrator: Self)
        ensures
            orchestrator@.pending == Seq::<NodeId>::empty(),
            forall|node: NodeId|
                nodes@.contains(node) <==> #[trigger] orchestrator@.statuses.contains_key(node),
            forall|node: NodeId|
                #[trigger] orchestrator@.statuses.contains_key(node) ==> orchestrator@.statuses[node]
                    == NodeStatus::Running,
    {
        let mut statuses: HashMap<NodeId, NodeStatus> = HashMap::new();
        let mut i: usize = 0;
        while i < nodes.len()
            invariant
                i <= nodes.len(),
                forall|node: NodeId|
                    nodes@.take(i as int).contains(node) <==> #[trigger] statuses@.contains_key(
                        node,
                    ),
                forall|node: NodeId|
                    #[trigger] statuses@.contains_key(node) ==> statuses@[node]
                        == NodeStatus::Running,
            decreases nodes.len() - i,
        {
            let ghost before = statuses@;
            statuses.insert(nodes[i], NodeStatus::Running);
            proof {
                let grown = nodes@.take(i as int + 1);
                assert(grown.drop_last() =~= nodes@.take(i as int));
                assert forall|node: NodeId|
                    grown.contains(node) <==> #[trigger] statuses@.contains_key(node) by {
                    if grown.contains(node) {
                        let j = choose|j: int| 0 <= j < grown.len() && grown[j] == node;
                        if j < i {
                            assert(nodes@.take(i as int)[j] == node);
                        }
                    }
                    if node == nodes[i as int] {
                        assert(grown[i as int] == node);
                    } else if before.contains_key(node) {
                        let j = choose|j: int|
                            0 <= j < nodes@.take(i as int).len() && nodes@.take(i as int)[j]
                                == node;
                        assert(grown[j] == node);
                    }
                }
            }
            i += 1;
        }
        assert(nodes@.take(nodes.len() as int) =~= nodes@);
        Orchestrator { statuses, pending: PendingRecovery::new() }
    }

    /// The status of `node`, if the orchestrator knows it.
    pub fn status(&self, node: NodeId) -> (status: Option<NodeStatus>)
        ensures
            status == (if self@.statuses.contains_key(node) {
                Some(self@.statuses[node])
            } else {
                None
            }),
    {
        match self.statuses.get(&node) {
            Some(status) => Some(*status),
            None => None,
        }
    }

    /// The number of nodes that wait to be recovered. They are exactly the
    /// nodes whose status is unreachable.
    pub fn waiting(&self) -> (n: usize)
        ensures
            n == self@.pending.len(),
            consistent(self@),
    {
        proof {
            use_type_invariant(self);
        }
        self.pending.len()
    }

    /// Takes in what was observed of `node` and tells what to do. A running
    /// node whose inbox refused a send, or that was marked failed, becomes
    /// unreachable and waits to be recovered.
    pub fn observe(&mut self, node: NodeId, event: RecoveryEvent) -> (action: RecoveryAction)
        ensures
            (final(self)@, action) == observed(old(self)@, node, event),
    {
        proof {
            use_type_invariant(&*self);
            lemma_observed_consistent(self@, node, event);
        }
        let status = match self.statuses.get(&node) {
            Some(status) => *status,
            None => {
                return RecoveryAction::Nothing;
            },
        };
        match event {
            RecoveryEvent::Taken => {
                return RecoveryAction::Nothing;
            },
            _ => {},
        }
        let (next, action) = on_event(status, event);
        let mut held = Orchestrator { statuses: HashMap::new(), pending: PendingRecovery::new() };
        std::mem::swap(&mut held, self);
        let Orchestrator { mut statuses, mut pending } = held;
        statuses.insert(node, next);
        if action == RecoveryAction::MarkUnreachable {
            assert(!old(self)@.pending.contains(node));
            pending.mark_unreachable(node);
        }
        *self = Orchestrator { statuses, pending };
        action
    }

    /// Takes up the node that has waited longest: it is recovering from now
    /// on, and the caller restarts it as `restart_steps` says.
    pub fn take_next(&mut self) -> (next: Option<NodeId>)
        ensures
            (final(self)@, next) == taken_up(old(self)@),
    {
        proof {
            use_type_invariant(&*self);
            lemma_taken_up_consistent(self@);
        }
        let mut held = Orchestrator { statuses: HashMap::new(), pending: PendingRecovery::new() };
        std::mem::swap(&mut held, self);
        let Orchestrator { mut statuses, mut pending } = held;
        let next = pending.take_next();
        match next {
            Some(node) => {
                let (status, _) = on_event(NodeStatus::Unreachable, RecoveryEvent::Taken);
                statuses.insert(node, status);
            },
            None => {},
        }
        *self = Orchestrator { statuses, pending };
        next
    }
}

/// The status of a node after a run of events.
pub open spec fn recovery_run(status: NodeStatus, events: Seq<RecoveryEvent>) -> NodeStatus
    decreases events.len(),
{
    if events.len() == 0 {
        status
    } else {
        recovery_run(recovery_step(status, events.first()).0, events.drop_first())
    }
}

/// Whether an event is the outcome of a check for a leader.
pub open spec fn is_check(event: RecoveryEvent) -> bool {
    event is LeaderKnown || event is LeaderUnknown
}

/// Whether some event names a leader.
pub open spec fn leader_seen(events: Seq<RecoveryEvent>) -> bool {
    exists|i: int| 0 <= i < events.len() && #[trigger] events[i] is LeaderKnown
}

/// The settle window is bounded: a recovering node that has `checks_left`
/// checks for a leader left is running or failed once it has seen that many
/// outcomes. It runs if one of them named a leader, and has failed if none
/// did; later outcomes change nothing.
pub proof fn lemma_settle_window_bounded(checks_left: u8, outcomes: Seq<RecoveryEvent>)
    requires
        1 <= checks_left <= outcomes.len(),
        forall|i: int| 0 <= i < outcomes.len() ==> is_check(#[trigger] outcomes[i]),
    ensures
        recovery_run(NodeStatus::Recovering { checks_left }, outcomes) == (if leader_seen(
            outcomes.take(checks_left as int),
        ) {
            NodeStatus::Running
        } else {
            NodeStatus::Failed
        }),
    decreases outcomes.len(),
{
    let status = NodeStatus::Recovering { checks_left };
    let rest = outcomes.drop_first();
    let window = outcomes.take(checks_left as int);
    assert(window[0] == outcomes[0]);
    assert forall|i: int| 0 <= i < rest.len() implies is_check(#[trigger] rest[i]) by {
        assert(rest[i] == outcomes[i + 1]);
    }
    if outcomes[0] is LeaderKnown {
        lemma_checks_change_nothing(NodeStatus::Running, rest);
    } else if checks_left == 1 {
        lemma_checks_change_nothing(NodeStatus::Failed, rest);
        assert(!leader_seen(window));
    } else {
        let fewer = (checks_left - 1) as u8;
        lemma_settle_window_bounded(fewer, rest);
        let inner = rest.take(fewer as int);
        if leader_seen(inner) {
            let i = choose|i: int| 0 <= i < inner.len() && #[trigger] inner[i] is LeaderKnown;
            assert(window[i + 1] is LeaderKnown);
        }
        if leader_seen(window) {
            let i = choose|i: int| 0 <= i < window.len() && #[trigger] window[i] is LeaderKnown;
            assert(inner[i - 1] is LeaderKnown);
        }
    }
}

/// The outcome of a check for a leader changes nothing for a node that is
/// not recovering.
pub proof fn lemma_checks_change_nothing(status: NodeStatus, outcomes: Seq<RecoveryEvent>)
    requires
        !(status is Recovering),
        forall|i: int| 0 <= i < outcomes.len() ==> is_check(#[trigger] outcomes[i]),
    ensures
        recovery_run(status, outcomes) == status,
    decreases outcomes.len(),
{
    if outcomes.len() > 0 {
        let rest = outcomes.drop_first();
        assert(is_check(outcomes[0]));
        assert forall|i: int| 0 <= i < rest.len() implies is_check(#[trigger] rest[i]) by {
            assert(rest[i] == outcomes[i + 1]);
        }
        lemma_checks_change_nothing(status, rest);
    }
}

} // verus!

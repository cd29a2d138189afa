//! The message pump of one node: which of its three duties it serves next,
//! and what it reports when a peer cannot be reached.
//!
//! The pump itself waits on timers and channels; that is left to the caller.
//! It asks here what to do with what is ready, does it, and hands back how
//! each send ended.

use vstd::prelude::*;
use crate::nodes::NodeId;
use crate::recovery::{observed, Orchestrator, OrchestratorView, RecoveryEvent};

verus! {

/// Which of the pump's events are ready at one moment.
#[derive(Clone, Copy, Debug, PartialEq, Eq, Structural)]
pub struct PumpReady {
    /// The election timer has ticked.
    pub election_tick: bool,
    /// The timer for flushing outgoing messages has ticked.
    pub outgoing_tick: bool,
    /// An inbound message is waiting.
    pub inbound: bool,
}

/// What the pump does next.
#[derive(Clone, Copy, Debug, PartialEq, Eq, Structural)]
pub enum PumpAction {
    /// Advance the election clock of the handle by one tick.
    ElectionTimeout,
    /// Drain the outgoing messages of the handle and send each to the inbox
    /// of the peer it is addressed to.
    FlushOutgoing,
    /// Feed the waiting inbound message into the handle.
    HandleIncoming,
    /// Nothing is ready: wait.
    Wait,
}

/// The duty that is served when several are ready: the election tick before
/// the flush, the flush before an inbound message.
pub open spec fn pump_choice(ready: PumpReady) -> PumpAction {
    if ready.election_tick {
        PumpAction::ElectionTimeout
    } else if ready.outgoing_tick {
        PumpAction::FlushOutgoing
    } else if ready.inbound {
        PumpAction::HandleIncoming
    } else {
        PumpAction::Wait
    }
}

/// Chooses what the pump does next. Work that a timer drives is never kept
/// waiting by inbound messages: a message is handled only while no timer has
/// ticked.
pub fn next_action(ready: PumpReady) -> (action: PumpAction)
    ensures
        action == pump_choice(ready),
        action == PumpAction::HandleIncoming ==> !ready.election_tick && !ready.outgoing_tick,
        action == PumpAction::Wait <==> !ready.election_tick && !ready.outgoing_tick
            && !ready.inbound,
{
    if ready.election_tick {
        PumpAction::ElectionTimeout
    } else if ready.outgoing_tick {
        PumpAction::FlushOutgoing
    } else if ready.inbound {
        PumpAction::HandleIncoming
    } else {
        PumpAction::Wait
    }
}

/// How the send of one outgoing message ended.
#[derive(Clone, Copy, Debug, PartialEq, Eq, Structural)]
pub struct SendOutcome {
    /// The peer that the message was addressed to.
    pub receiver: NodeId,
    /// Whether the peer's inbox took the message.
    pub delivered: bool,
}

/// What the orchestrator knows after the outcomes of a flush have been
/// reported: each send that an inbox did not take is observed as a failed
/// send to its receiver, in the order of the sends.
pub open spec fn after_flush(v: OrchestratorView, outcomes: Seq<SendOutcome>) -> OrchestratorView
    decreases outcomes.len(),
{
    if outcomes.len() == 0 {
        v
    } else {
        let before = after_flush(v, outcomes.drop_last());
        if outcomes.last().delivered {
            before
        } else {
            observed(before, outcomes.last().receiver, RecoveryEvent::SendFailed).0
        }
    }
}

/// Reports how the sends of one flush ended. A failed send does not stop the
/// pump: the peer is reported to the recovery orchestrator as unreachable,
/// and the pump goes on with its other peers and its timers.
pub fn record_send_failures(orchestrator: &mut Orchestrator, outcomes: &Vec<SendOutcome>)
    ensures
        final(orchestrator)@ == after_flush(old(orchestrator)@, outcomes@),
{
    let mut i: usize = 0;
    while i < outcomes.len()
        invariant
            i <= outcomes.len(),
            orchestrator@ == after_flush(old(orchestrator)@, outcomes@.take(i as int)),
        decreases outcomes.len() - i,
    {
        proof {
            assert(outcomes@.take(i as int + 1).drop_last() =~= outcomes@.take(i as int));
        }
        if !outcomes[i].delivered {
            orchestrator.observe(outcomes[i].receiver, RecoveryEvent::SendFailed);
        }
        i += 1;
    }
    assert(outcomes@.take(outcomes.len() as int) =~= outcomes@);
}

} // verus!

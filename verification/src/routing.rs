//! Which node serves a request: a named policy that can be swapped, in place
//! of a random draw hidden in the request path.

use vstd::prelude::*;
use crate::nodes::NodeId;

verus! {

/// How the node that serves a request is chosen.
#[derive(Clone, Copy, Debug, PartialEq, Eq, Structural)]
pub enum RoutingPolicy {
    /// Always the given node.
    Fixed(NodeId),
    /// Each node in turn.
    RoundRobin,
    /// A node drawn at random. A replica that is read through this policy
    /// may lag behind a write that was just answered: read-after-write is
    /// not promised for it.
    Random,
}

/// Whether `node` is one of `nodes`.
pub open spec fn is_member(nodes: Seq<NodeId>, node: NodeId) -> bool {
    exists|i: int| 0 <= i < nodes.len() && nodes[i] == node
}

/// The node that a policy chooses among `nodes`, given a ticket: the turn
/// for `RoundRobin`, the draw for `Random`. A fixed node is chosen only
/// where it is one of `nodes`; of no nodes none is chosen.
pub open spec fn routed(policy: RoutingPolicy, nodes: Seq<NodeId>, ticket: nat) -> Option<NodeId> {
    match policy {
        RoutingPolicy::Fixed(node) => if is_member(nodes, node) {
            Some(node)
        } else {
            None
        },
        _ => if nodes.len() == 0 {
            None
        } else {
            Some(nodes[(ticket % nodes.len()) as int])
        },
    }
}

/// Tells whether `node` is one of `nodes`.
pub fn contains_node(nodes: &Vec<NodeId>, node: NodeId) -> (found: bool)
    ensures
        found == is_member(nodes@, node),
{
    let mut i: usize = 0;
    while i < nodes.len()
        invariant
            i <= nodes.len(),
            forall|j: int| 0 <= j < i ==> nodes[j] != node,
        decreases nodes.len() - i,
    {
        if nodes[i] == node {
            return true;
        }
        i += 1;
    }
    false
}

/// Chooses among `nodes` by `policy` and `ticket`.
pub fn pick_node(policy: RoutingPolicy, nodes: &Vec<NodeId>, ticket: usize) -> (choice: Option<
    NodeId,
>)
    ensures
        choice == routed(policy, nodes@, ticket as nat),
{
    match policy {
        RoutingPolicy::Fixed(node) => {
            if contains_node(nodes, node) {
                Some(node)
            } else {
                None
            }
        },
        _ => {
            if nodes.len() == 0 {
                None
            } else {
                Some(nodes[ticket % nodes.len()])
            }
        },
    }
}

/// Draws a number below `bound` from the thread-local generator, through
/// `rand::Rng::gen_range` on `rand::thread_rng()` with the range
/// `0..bound`. The call panics on an empty range, so the bound is positive;
/// all that is claimed of the draw is that it lies in the range.
#[verifier::external_body]
fn draw_below(bound: usize) -> (draw: usize)
    requires
        bound > 0,
    ensures
        draw < bound,
{
    rand::Rng::gen_range(&mut rand::thread_rng(), 0..bound)
}

/// A routing policy together with the turn that `RoundRobin` has reached.
pub struct Router {
    pub policy: RoutingPolicy,
    pub turn: usize,
}

impl Router {
    /// A router that starts with the first turn.
    pub fn new(policy: RoutingPolicy) -> (router: Self)
        ensures
            router.policy == policy,
            router.turn == 0,
    {
        Router { policy, turn: 0 }
    }

    /// Chooses the node for the next request. `Fixed` and `RoundRobin`
    /// choose as `routed` says, by the turn; `Random` chooses one of the
    /// nodes, whichever the draw gives, and none only where there is none.
    /// `RoundRobin` moves on to the next turn, wrapping at the number of
    /// nodes.
    pub fn next_target(&mut self, nodes: &Vec<NodeId>) -> (choice: Option<NodeId>)
        ensures
            final(self).policy == old(self).policy,
            old(self).policy != RoutingPolicy::Random ==> choice == routed(
                old(self).policy,
                nodes@,
                old(self).turn as nat,
            ),
            old(self).policy == RoutingPolicy::Random ==> (if nodes.len() == 0 {
                choice.is_none()
            } else {
                exists|draw: int| 0 <= draw < nodes.len() && choice == Some(#[trigger] nodes[draw])
            }),
            final(self).turn == (if old(self).policy == RoutingPolicy::RoundRobin && nodes.len()
                > 0 {
                ((old(self).turn % nodes.len()) + 1) % (nodes.len() as int)
            } else {
                old(self).turn as int
            }),
    {
        match self.policy {
            RoutingPolicy::Random => {
                if nodes.len() == 0 {
                    None
                } else {
                    let draw = draw_below(nodes.len());
                    Some(nodes[draw])
                }
            },
            RoutingPolicy::RoundRobin => {
                let choice = pick_node(RoutingPolicy::RoundRobin, nodes, self.turn);
                if nodes.len() > 0 {
                    self.turn = ((self.turn % nodes.len()) + 1) % nodes.len();
                }
                choice
            },
            RoutingPolicy::Fixed(node) => pick_node(RoutingPolicy::Fixed(node), nodes, self.turn),
        }
    }
}

/// Whatever the policy and the ticket, a chosen node is one of the nodes,
/// and among at least one node `RoundRobin` and `Random` always choose.
pub proof fn lemma_routed_is_member(policy: RoutingPolicy, nodes: Seq<NodeId>, ticket: nat)
    ensures
        routed(policy, nodes, ticket) matches Some(node) ==> is_member(nodes, node),
        !(policy is Fixed) && nodes.len() > 0 ==> routed(policy, nodes, ticket).is_some(),
{
    if !(policy is Fixed) && nodes.len() > 0 {
        let i = (ticket % nodes.len()) as int;
        assert(0 <= i < nodes.len()) by (nonlinear_arith)
            requires
                i == ticket % nodes.len(),
                nodes.len() > 0,
        ;
        assert(nodes[i] == nodes[i]);
    }
}

} // verus!

//! The cluster directory: for each node id the member that stands for it,
//! with its consensus handle, its pump task and its configuration.
//!
//! The directory is built once at startup. After that an entry is looked up
//! or replaced, never removed. What a handle and a pump task are is left to
//! the caller.

use std::collections::HashMap;
use vstd::prelude::*;
use crate::nodes::NodeId;

verus! {

broadcast use vstd::std_specs::hash::group_hash_axioms;

/// The configuration of one node: who it is and who its peers are.
#[derive(Debug)]
pub struct NodeConfig {
    pub pid: NodeId,
    pub configuration_id: u32,
    pub peers: Vec<NodeId>,
}

/// The mathematical content of a `NodeConfig`.
pub struct NodeConfigView {
    pub pid: NodeId,
    pub configuration_id: u32,
    pub peers: Seq<NodeId>,
}

impl View for NodeConfig {
    type V = NodeConfigView;

    open spec fn view(&self) -> NodeConfigView {
        NodeConfigView {
            pid: self.pid,
            configuration_id: self.configuration_id,
            peers: self.peers@,
        }
    }
}

impl Clone for NodeConfig {
    fn clone(&self) -> (r: Self)
        ensures
            r@ == self@,
    {
        NodeConfig {
            pid: self.pid,
            configuration_id: self.configuration_id,
            peers: self.peers.clone(),
        }
    }
}

/// The test that every server but `pid` passes.
pub open spec fn is_other(pid: NodeId) -> spec_fn(NodeId) -> bool {
    |server: NodeId| server != pid
}

/// The servers other than `pid`, in their order.
pub open spec fn others(servers: Seq<NodeId>, pid: NodeId) -> Seq<NodeId> {
    servers.filter(is_other(pid))
}

/// The peers of `pid` among `servers`: every server but itself.
pub fn peers_of(servers: &Vec<NodeId>, pid: NodeId) -> (peers: Vec<NodeId>)
    ensures
        peers@ == others(servers@, pid),
{
    let mut peers: Vec<NodeId> = Vec::new();
    let mut i: usize = 0;
    assert(servers@.take(0).filter(is_other(pid)) =~= Seq::<NodeId>::empty()) by {
        reveal(Seq::filter);
    }
    while i < servers.len()
        invariant
            i <= servers.len(),
            peers@ == servers@.take(i as int).filter(is_other(pid)),
        decreases servers.len() - i,
    {
        proof {
            reveal(Seq::filter);
            assert(servers@.take(i as int + 1).drop_last() =~= servers@.take(i as int));
        }
        if servers[i] != pid {
            peers.push(servers[i]);
        }
        i += 1;
    }
    assert(servers@.take(servers.len() as int) =~= servers@);
    peers
}

/// The configuration of each of `servers`, in their order: its own id, the
/// configuration id, and every other server as a peer.
pub fn member_configs(servers: &Vec<NodeId>, configuration_id: u32) -> (configs: Vec<NodeConfig>)
    ensures
        configs.len() == servers.len(),
        forall|i: int|
            0 <= i < servers.len() ==> (#[trigger] configs[i])@ == (NodeConfigView {
                pid: servers[i],
                configuration_id,
                peers: others(servers@, servers[i]),
            }),
{
    let mut configs: Vec<NodeConfig> = Vec::new();
    let mut i: usize = 0;
    while i < servers.len()
        invariant
            i <= servers.len(),
            configs.len() == i,
            forall|j: int|
                0 <= j < i ==> (#[trigger] configs[j])@ == (NodeConfigView {
                    pid: servers[j],
                    configuration_id,
                    peers: others(servers@, servers[j]),
                }),
        decreases servers.len() - i,
    {
        let pid = servers[i];
        configs.push(NodeConfig { pid, configuration_id, peers: peers_of(servers, pid) });
        i += 1;
    }
    configs
}

/// One member of the cluster.
pub struct ClusterMember<H, P> {
    pub id: NodeId,
    pub handle: H,
    pub pump_task: P,
    pub config: NodeConfig,
}

/// The registry of the cluster's members by node id.
pub struct ClusterDirectory<H, P> {
    members: HashMap<NodeId, ClusterMember<H, P>>,
}

impl<H, P> View for ClusterDirectory<H, P> {
    type V = Map<NodeId, ClusterMember<H, P>>;

    closed spec fn view(&self) -> Map<NodeId, ClusterMember<H, P>> {
        self.members@
    }
}

impl<H, P> ClusterDirectory<H, P> {
    #[verifier::type_invariant]
    spec fn filed_under_own_id(self) -> bool {
        forall|id: NodeId| #[trigger] self.members@.contains_key(id) ==> self.members@[id].id == id
    }

    /// A directory without members.
    pub fn new() -> (directory: Self)
        ensures
            directory@ == Map::<NodeId, ClusterMember<H, P>>::empty(),
    {
        ClusterDirectory { members: HashMap::new() }
    }

    /// The number of members.
    pub fn len(&self) -> (n: usize)
        ensures
            n == self@.len(),
    {
        self.members.len()
    }

    /// Whether a member is registered for `id`.
    pub fn contains(&self, id: NodeId) -> (found: bool)
        ensures
            found == self@.contains_key(id),
    {
        self.members.contains_key(&id)
    }

    /// The member registered for `id`. It is filed under its own id.
    pub fn lookup(&self, id: NodeId) -> (member: Option<&ClusterMember<H, P>>)
        ensures
            match member {
                Some(found) => self@.contains_key(id) && *found == self@[id] && found.id == id,
                None => !self@.contains_key(id),
            },
    {
        proof {
            use_type_invariant(self);
        }
        self.members.get(&id)
    }

    /// Registers `member` under its own id and hands back the member that
    /// was registered for that id before, if there was one.
    pub fn register(&mut self, member: ClusterMember<H, P>) -> (previous: Option<
        ClusterMember<H, P>,
    >)
        ensures
            final(self)@ == old(self)@.insert(member.id, member),
            previous == (if old(self)@.contains_key(member.id) {
                Some(old(self)@[member.id])
            } else {
                None
            }),
    {
        proof {
            use_type_invariant(&*self);
        }
        let mut members: HashMap<NodeId, ClusterMember<H, P>> = HashMap::new();
        std::mem::swap(&mut members, &mut self.members);
        let id = member.id;
        let previous = members.insert(id, member);
        self.members = members;
        previous
    }

    /// Replaces the handle and the pump task of the member registered for
    /// `id` and hands back the old pair. The member keeps its id and its
    /// configuration, and no member comes or goes. Where no member is
    /// registered for `id`, nothing changes and the new pair is handed back.
    pub fn replace(&mut self, id: NodeId, handle: H, pump_task: P) -> (swapped: Result<
        (H, P),
        (H, P),
    >)
        ensures
            final(self)@.dom() == old(self)@.dom(),
            old(self)@.contains_key(id) ==> swapped == Ok::<(H, P), (H, P)>(
                (old(self)@[id].handle, old(self)@[id].pump_task),
            ) && final(self)@ == old(self)@.insert(
                id,
                ClusterMember { id, handle, pump_task, config: old(self)@[id].config },
            ),
            !old(self)@.contains_key(id) ==> swapped == Err::<(H, P), (H, P)>((handle, pump_task))
                && final(self)@ == old(self)@,
    {
        proof {
            use_type_invariant(&*self);
        }
        let mut members: HashMap<NodeId, ClusterMember<H, P>> = HashMap::new();
        std::mem::swap(&mut members, &mut self.members);
        let swapped = match members.remove(&id) {
            Some(member) => {
                let ClusterMember { id: _, handle: old_handle, pump_task: old_task, config } =
                    member;
                members.insert(id, ClusterMember { id, handle, pump_task, config });
                Ok((old_handle, old_task))
            },
            None => Err((handle, pump_task)),
        };
        assert(members@.dom() =~= old(self)@.dom());
        self.members = members;
        swapped
    }
}

} // verus!

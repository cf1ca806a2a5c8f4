//! Configuration of a cluster of replicas.
use vstd::prelude::*;

use crate::vec_map::VecMap;
use crate::NodeId;

verus! {

#[derive(Default)]
pub struct Config {
    /// Number of nodes in the system
    pub num_nodes: usize,
    /// How many faulty nodes the system can tolerate
    pub num_faulty: usize,
    /// Address (`ip:port`) which each node is listening on
    pub peer_addrs: VecMap<NodeId, String>,
    /// How long we wait after receiving a pre-prepare request
    /// which we have not yet executed before initiating a view-change
    pub request_timeout: std::time::Duration,
    /// How long a node should wait if it is currently leader
    /// to rebroadcast a pre-prepare which has not been applied to yet
    pub rebroadcast_timeout: std::time::Duration,
    /// How often a node should broadcast its identity (with pub key) to the network
    pub identity_broadcast_interval: std::time::Duration,
    /// How many requests we see in between stable checkpoints
    pub checkpoint_frequency: usize,
    /// Does this node equivocate (used for testing)
    pub is_equivocator: bool,
}

/// A configuration, with the addresses as a map.
pub ghost struct ConfigView {
    pub num_nodes: usize,
    pub num_faulty: usize,
    pub peer_addrs: Map<NodeId, Seq<char>>,
    pub request_timeout: std::time::Duration,
    pub rebroadcast_timeout: std::time::Duration,
    pub identity_broadcast_interval: std::time::Duration,
    pub checkpoint_frequency: usize,
    pub is_equivocator: bool,
}

impl View for Config {
    type V = ConfigView;

    open spec fn view(&self) -> ConfigView {
        ConfigView {
            num_nodes: self.num_nodes,
            num_faulty: self.num_faulty,
            peer_addrs: self.peer_addrs.to_map(),
            request_timeout: self.request_timeout,
            rebroadcast_timeout: self.rebroadcast_timeout,
            identity_broadcast_interval: self.identity_broadcast_interval,
            checkpoint_frequency: self.checkpoint_frequency,
            is_equivocator: self.is_equivocator,
        }
    }
}

impl Config {
    /// No node has two addresses.
    pub open spec fn wf(&self) -> bool {
        self.peer_addrs.wf()
    }

    /// Address of node `id`, if the configuration knows one.
    pub fn peer_addr(&self, id: NodeId) -> (r: Option<&String>)
        requires
            self.peer_addrs.wf(),
        ensures
            r is Some == self@.peer_addrs.dom().contains(id),
            r matches Some(a) ==> a@ == self@.peer_addrs[id],
    {
        self.peer_addrs.get(&id)
    }
}

impl Clone for Config {
    fn clone(&self) -> (r: Self)
        ensures
            r@ == self@,
            r.request_timeout == self.request_timeout,
            r.rebroadcast_timeout == self.rebroadcast_timeout,
            r.identity_broadcast_interval == self.identity_broadcast_interval,
            self.wf() ==> r.wf(),
            r.peer_addrs.entries@ == self.peer_addrs.entries@,
            r.peer_addrs.entries@.len() == self.peer_addrs.entries@.len(),
            forall|i: int|
                0 <= i < self.peer_addrs.entries@.len() ==> (#[trigger] r.peer_addrs.entries@[i]).0
                    == self.peer_addrs.entries@[i].0 && r.peer_addrs.entries@[i].1@
                    == self.peer_addrs.entries@[i].1@,
    {
        let mut entries: Vec<(NodeId, String)> = Vec::new();
        let mut i: usize = 0;
        while i < self.peer_addrs.entries.len()
            invariant
                i <= self.peer_addrs.entries@.len(),
                entries@.len() == i,
                forall|j: int| 0 <= j < i ==> #[trigger] entries@[j] == self.peer_addrs.entries@[j],
            decreases self.peer_addrs.entries@.len() - i,
        {
            let id = self.peer_addrs.entries[i].0;
            let addr = self.peer_addrs.entries[i].1.clone();
            entries.push((id, addr));
            i = i + 1;
        }
        assert(entries@ =~= self.peer_addrs.entries@);
        let peer_addrs = VecMap { entries };
        proof {
            if self.peer_addrs.wf() {
                assert forall|a: int, b: int|
                    0 <= a < peer_addrs.entries@.len() && 0 <= b < peer_addrs.entries@.len() && a != b
                        implies #[trigger] peer_addrs.key_at(a) != #[trigger] peer_addrs.key_at(b) by {
                    assert(peer_addrs.key_at(a) == self.peer_addrs.key_at(a));
                    assert(peer_addrs.key_at(b) == self.peer_addrs.key_at(b));
                }
            }
        }
        Config {
            num_nodes: self.num_nodes,
            num_faulty: self.num_faulty,
            peer_addrs,
            request_timeout: self.request_timeout,
            rebroadcast_timeout: self.rebroadcast_timeout,
            identity_broadcast_interval: self.identity_broadcast_interval,
            checkpoint_frequency: self.checkpoint_frequency,
            is_equivocator: self.is_equivocator,
        }
    }
}

/// The number of faulty nodes that a cluster of `num_nodes` tolerates: the
/// largest `f` with `3f + 1 <= num_nodes`.
pub fn max_faulty(num_nodes: usize) -> (f: usize)
    requires
        num_nodes > 0,
    ensures
        f == (num_nodes - 1) / 3,
        3 * f + 1 <= num_nodes,
        num_nodes < 3 * (f + 1) + 1,
{
    (num_nodes - 1) / 3
}

} // verus!

//! The requests and pre-prepares that a replica is waiting on, and what it does
//! when it has waited too long.
use vstd::prelude::*;

use crate::config::Config;
use crate::messages::{ClientRequest, ClientRequestView, ConsensusCommand, ConsensusCommandView};
use crate::vec_map::VecMap;
use crate::NodeId;

verus! {

pub struct ViewChanger {
    /// Id of the current node
    pub id: NodeId,
    /// Configuration of the cluster this node is in
    pub config: Config,
    /// These are added when we either get a misdirected client request
    /// or we accept a pre-prepare message
    /// Used to initiate view changes
    pub wait_set: VecMap<ClientRequest, ()>,
    /// These are pre-prepares sent by the leader which we have not applied yet
    /// If a certain amount of time expires and we have not yet applied it
    /// we re-broadcast the pre-prepare to the other peers
    /// Pre-prepares are indexed by (view, seq_num)
    pub sent_pre_prepares: VecMap<(usize, usize), ()>,
}

impl ViewChanger {
    pub open spec fn wf(&self) -> bool {
        self.wait_set.wf() && self.sent_pre_prepares.wf()
    }

    /// A view changer that waits on nothing.
    pub fn new(id: NodeId, config: Config) -> (v: ViewChanger)
        ensures
            v.wf(),
            v.id == id,
            v.config == config,
            v.wait_set@.dom() == Set::<ClientRequestView>::empty(),
            v.sent_pre_prepares@.dom() == Set::<(usize, usize)>::empty(),
    {
        ViewChanger { id, config, wait_set: VecMap::new(), sent_pre_prepares: VecMap::new() }
    }

    /// Starts waiting for the pre-prepare at `(view, seq_num)` to be applied.
    /// Returns whether it was not waited on before.
    pub fn add_to_sent_pre_prepares(&mut self, view_seq_num_pair: &(usize, usize)) -> (r: bool)
        requires
            old(self).wf(),
        ensures
            final(self).wf(),
            r == !old(self).sent_pre_prepares@.dom().contains(*view_seq_num_pair),
            final(self).sent_pre_prepares@.dom() == old(self).sent_pre_prepares@.dom().insert(*view_seq_num_pair),
            old(self).sent_pre_prepares.inserted(final(self).sent_pre_prepares, *view_seq_num_pair, ()),
            final(self).wait_set == old(self).wait_set,
            final(self).id == old(self).id,
            final(self).config == old(self).config,
    {
        let fresh = !self.sent_pre_prepares.contains_key(view_seq_num_pair);
        self.sent_pre_prepares.insert(*view_seq_num_pair, ());
        fresh
    }

    pub fn remove_from_sent_pre_prepares(&mut self, view_seq_num_pair: &(usize, usize))
        requires
            old(self).wf(),
        ensures
            final(self).wf(),
            final(self).sent_pre_prepares@.dom() == old(self).sent_pre_prepares@.dom().remove(*view_seq_num_pair),
            old(self).sent_pre_prepares.removed(final(self).sent_pre_prepares, *view_seq_num_pair),
            final(self).wait_set == old(self).wait_set,
            final(self).id == old(self).id,
            final(self).config == old(self).config,
    {
        self.sent_pre_prepares.remove(view_seq_num_pair);
    }

    pub fn is_in_sent_pre_prepares(&self, view_seq_num_pair: &(usize, usize)) -> (r: bool)
        requires
            self.wf(),
        ensures
            r == self.sent_pre_prepares@.dom().contains(*view_seq_num_pair),
    {
        self.sent_pre_prepares.contains_key(view_seq_num_pair)
    }

    /// What to do once the rebroadcast timer of the pre-prepare at `(view,
    /// seq_num)` expires: rebroadcast it if it is still not applied.
    pub fn wait_for_sent_pre_prepares(&self, view_seq_num_pair: &(usize, usize)) -> (r: Option<ConsensusCommand>)
        requires
            self.wf(),
        ensures
            r is Some == self.sent_pre_prepares@.dom().contains(*view_seq_num_pair),
            r matches Some(c) ==> c@ == ConsensusCommandView::RebroadcastPrePrepare(*view_seq_num_pair),
    {
        if self.is_in_sent_pre_prepares(view_seq_num_pair) {
            Some(ConsensusCommand::RebroadcastPrePrepare(*view_seq_num_pair))
        } else {
            None
        }
    }

    /// Starts waiting for `request` to be applied. Returns whether it was not
    /// waited on before.
    pub fn add_to_wait_set(&mut self, request: &ClientRequest) -> (r: bool)
        requires
            old(self).wf(),
        ensures
            final(self).wf(),
            r == !old(self).wait_set@.dom().contains(request@),
            final(self).wait_set@.dom() == old(self).wait_set@.dom().insert(request@),
            old(self).wait_set.inserted(final(self).wait_set, request@, ()),
            !old(self).wait_set@.dom().contains(request@) ==> final(self).wait_set.keys()
                == old(self).wait_set.keys().push(request@),
            old(self).wait_set@.dom().contains(request@) ==> final(self).wait_set.keys()
                == old(self).wait_set.keys(),
            final(self).sent_pre_prepares == old(self).sent_pre_prepares,
            final(self).id == old(self).id,
            final(self).config == old(self).config,
    {
        let fresh = !self.wait_set.contains_key(request);
        self.wait_set.insert(request.clone(), ());
        fresh
    }

    pub fn remove_from_wait_set(&mut self, request: &ClientRequest)
        requires
            old(self).wf(),
        ensures
            final(self).wf(),
            final(self).wait_set@.dom() == old(self).wait_set@.dom().remove(request@),
            old(self).wait_set.removed(final(self).wait_set, request@),
            final(self).sent_pre_prepares == old(self).sent_pre_prepares,
            final(self).id == old(self).id,
            final(self).config == old(self).config,
    {
        self.wait_set.remove(request);
    }

    pub fn is_in_wait_set(&self, request: &ClientRequest) -> (r: bool)
        requires
            self.wf(),
        ensures
            r == self.wait_set@.dom().contains(request@),
    {
        self.wait_set.contains_key(request)
    }

    /// What to do once the timer of `request` expires: if the request is
    /// still not applied, start a view change.
    pub fn wait_for(&self, request: &ClientRequest) -> (r: Option<ConsensusCommand>)
        requires
            self.wf(),
        ensures
            r is Some == self.wait_set@.dom().contains(request@),
            r matches Some(c) ==> c@ == ConsensusCommandView::InitViewChange(request@),
    {
        if self.is_in_wait_set(request) {
            Some(ConsensusCommand::InitViewChange(request.clone()))
        } else {
            None
        }
    }

    /// The requests waited on, in the order in which waiting started.
    pub fn waiting_requests(&self) -> (r: Vec<ClientRequest>)
        ensures
            crate::messages::views_of(r@) == self.wait_set.keys(),
    {
        let mut r: Vec<ClientRequest> = Vec::new();
        let mut i: usize = 0;
        while i < self.wait_set.entries.len()
            invariant
                i <= self.wait_set.entries@.len(),
                r@.len() == i,
                forall|j: int| 0 <= j < i ==> (#[trigger] r@[j])@ == self.wait_set.entries@[j].0@,
            decreases self.wait_set.entries@.len() - i,
        {
            r.push(self.wait_set.entries[i].0.clone());
            i = i + 1;
        }
        assert(crate::messages::views_of(r@) =~= self.wait_set.keys());
        r
    }

    pub fn reset(&mut self)
        ensures
            final(self).wf(),
            final(self).wait_set@.dom() == Set::<ClientRequestView>::empty(),
            final(self).sent_pre_prepares@.dom() == Set::<(usize, usize)>::empty(),
            final(self).wait_set.entries@.len() == 0,
            final(self).id == old(self).id,
            final(self).config == old(self).config,
    {
        self.wait_set.clear();
        self.sent_pre_prepares.clear();
    }
}

} // verus!

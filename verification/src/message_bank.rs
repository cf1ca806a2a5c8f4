//! The log of protocol messages that a replica has sent, accepted or buffered.
use vstd::prelude::*;

use crate::messages::{CheckPoint, ClientRequest, Commit, PrePrepare, Prepare, VoteView};
use crate::vec_map::VecMap;

verus! {

pub struct MessageBank {
    /// (view, PrePrepare) requests which were sent either as the leader
    /// or were rebroadcast to the leader if this node is a replica
    /// This is used to make sure we do not broadcast the same request multiple times to the network
    pub sent_requests: VecMap<(usize, ClientRequest), ()>,
    /// Pre-prepare messages by (view, seq_num) that
    /// we have accepted but have not applied yet
    pub accepted_pre_prepare_requests: VecMap<(usize, usize), PrePrepare>,
    /// Valid prepares that we received that we did not accept
    /// (These have been buffered because we may not have received the associated pre-prepare)
    pub outstanding_prepares: VecMap<Prepare, ()>,
    /// Valid commits that we received that we did not accept
    /// (These have been buffered because we may not have received the associated prepare)
    pub outstanding_commits: VecMap<Commit, ()>,
    /// Commits we accepted but did not apply the associated request yet
    pub accepted_commits_not_applied: VecMap<usize, Commit>,
    /// Maps a sequence number to the commit applied at a given sequence number
    /// together with the associated client request
    pub applied_commits: VecMap<usize, (Commit, ClientRequest)>,
    /// Maps a (seq_num, state_digest) pair to checkpoints we saw for that pair
    pub checkpoint_messages: VecMap<(usize, Vec<u8>), CheckPoint>,
}

impl MessageBank {
    pub open spec fn wf(&self) -> bool {
        &&& self.sent_requests.wf()
        &&& self.accepted_pre_prepare_requests.wf()
        &&& self.outstanding_prepares.wf()
        &&& self.outstanding_commits.wf()
        &&& self.accepted_commits_not_applied.wf()
        &&& self.applied_commits.wf()
        &&& self.checkpoint_messages.wf()
    }

    /// An empty bank.
    pub fn new() -> (b: MessageBank)
        ensures
            b.wf(),
            b.sent_requests@ == Map::<(usize, crate::messages::ClientRequestView), ()>::empty(),
            b.accepted_pre_prepare_requests@ == Map::<(usize, usize), crate::messages::PrePrepareView>::empty(),
            b.outstanding_prepares@ == Map::<crate::messages::VoteView, ()>::empty(),
            b.outstanding_commits@ == Map::<crate::messages::VoteView, ()>::empty(),
            b.accepted_commits_not_applied@ == Map::<usize, crate::messages::VoteView>::empty(),
            b.applied_commits@ == Map::<usize, (crate::messages::VoteView, crate::messages::ClientRequestView)>::empty(),
            b.checkpoint_messages@ == Map::<(usize, Seq<u8>), crate::messages::CheckPointView>::empty(),
    {
        MessageBank {
            sent_requests: VecMap::new(),
            accepted_pre_prepare_requests: VecMap::new(),
            outstanding_prepares: VecMap::new(),
            outstanding_commits: VecMap::new(),
            accepted_commits_not_applied: VecMap::new(),
            applied_commits: VecMap::new(),
            checkpoint_messages: VecMap::new(),
        }
    }

    /// `new` is `self` without anything that belongs to a sequence number
    /// below `upper_seq_num`; the requests sent are kept.
    pub open spec fn collected(self, new: Self, upper_seq_num: usize) -> bool {
        &&& new.accepted_pre_prepare_requests@ == self.accepted_pre_prepare_requests@.restrict(
            Set::new(|k: (usize, usize)| k.1 >= upper_seq_num),
        )
        &&& new.outstanding_prepares@ == self.outstanding_prepares@.restrict(
            Set::new(|p: VoteView| p.seq_num >= upper_seq_num),
        )
        &&& new.outstanding_commits@ == self.outstanding_commits@.restrict(
            Set::new(|c: VoteView| c.seq_num >= upper_seq_num),
        )
        &&& new.accepted_commits_not_applied@ == self.accepted_commits_not_applied@.restrict(
            Set::new(|q: usize| q >= upper_seq_num),
        )
        &&& new.applied_commits@ == self.applied_commits@.restrict(Set::new(|q: usize| q >= upper_seq_num))
        &&& new.checkpoint_messages@ == self.checkpoint_messages@.restrict(
            Set::new(|k: (usize, Seq<u8>)| k.0 >= upper_seq_num),
        )
        &&& new.sent_requests == self.sent_requests
    }

    /// Removes all state pertaining to messages with
    /// with sequence number < upper_seq_num
    pub fn garbage_collect(&mut self, upper_seq_num: usize)
        requires
            old(self).wf(),
        ensures
            final(self).wf(),
            old(self).collected(*final(self), upper_seq_num),
    {
        let ghost pre = *self;
        self.accepted_pre_prepare_requests.drop_below(upper_seq_num);
        self.outstanding_prepares.drop_below(upper_seq_num);
        self.outstanding_commits.drop_below(upper_seq_num);
        self.accepted_commits_not_applied.drop_below(upper_seq_num);
        self.applied_commits.drop_below(upper_seq_num);
        self.checkpoint_messages.drop_below(upper_seq_num);
        assert(self.accepted_pre_prepare_requests@ =~= pre.accepted_pre_prepare_requests@.restrict(
            Set::new(|k: (usize, usize)| k.1 >= upper_seq_num),
        ));
        assert(self.outstanding_prepares@ =~= pre.outstanding_prepares@.restrict(
            Set::new(|p: VoteView| p.seq_num >= upper_seq_num),
        ));
        assert(self.outstanding_commits@ =~= pre.outstanding_commits@.restrict(
            Set::new(|c: VoteView| c.seq_num >= upper_seq_num),
        ));
        assert(self.accepted_commits_not_applied@ =~= pre.accepted_commits_not_applied@.restrict(
            Set::new(|q: usize| q >= upper_seq_num),
        ));
        assert(self.applied_commits@ =~= pre.applied_commits@.restrict(Set::new(|q: usize| q >= upper_seq_num)));
        assert(self.checkpoint_messages@ =~= pre.checkpoint_messages@.restrict(
            Set::new(|k: (usize, Seq<u8>)| k.0 >= upper_seq_num),
        ));
    }
}

} // verus!

//! The state of one replica: its view, its sequence numbers, the votes it has
//! counted, its message log and its key-value store.
use vstd::prelude::*;

use crate::config::Config;
use crate::crypto::{json_object, json_object_of, pairs_model, sha512, sha512_of};
use crate::store_order::{ordered_entries, ordered_store_entries};
use crate::message_bank::MessageBank;
use crate::messages::{
    request_digest, views_of, CheckPoint, CheckPointView, ClientRequest, ClientRequestView, Commit,
    NewView, PrePrepare, PrePrepareView, Prepare, ViewChange, VoteView,
};
use crate::vec_map::VecMap;
use crate::{Key, NodeId, Value};

verus! {

pub struct State {
    /// Configuration data of the cluster this node is in.
    pub config: Config,
    /// Id of the node which maintains this state
    pub id: NodeId,
    /// Has this node issued a view-change message which has not been resolved
    pub in_view_change: bool,
    /// Current view we are in
    pub view: usize,
    /// Used by the leader to determine the next sequence number to assign a client request
    pub seq_num: usize,
    /// Sequence number of last stable checkpoint
    pub last_stable_seq_num: usize,
    /// Sequence number of last request which was applied to the state
    pub last_seq_num_committed: usize,
    /// Maps (view, seq_num) to the prepare messages we have accepted
    /// for the associated transaction, by sender
    pub prepare_votes: VecMap<(usize, usize), VecMap<NodeId, Prepare>>,
    /// Maps (view, seq_num) to Ids of nodes who we
    /// have accepted commit messages from for the associated transaction
    pub commit_votes: VecMap<(usize, usize), VecMap<NodeId, ()>>,
    /// Maps (seq_num, digest) pair to the Ids of the nodes
    /// who we have received corresponding checkpoints from
    pub checkpoint_votes: VecMap<(usize, Vec<u8>), VecMap<NodeId, ()>>,
    /// Maps a NodeId to the most recent checkpoint we have seen from that node
    /// since the last stable checkpoint
    /// Note that this is reset every time we hit a new checkpoint
    pub checkpoints_current_round: VecMap<NodeId, CheckPoint>,
    /// This consists of 2f + 1 checkpoint messages which were used to
    /// move to the current stable checkpoint
    /// This is used for subsequent view change messages
    pub last_checkpoint_proof: Vec<CheckPoint>,
    /// Maps node Ids to view change messages we have received for the subsequent view
    /// Note that we only ever maintain <= 1 view_change message from any given node
    pub view_change_votes: VecMap<NodeId, ViewChange>,
    /// Structure storing all messages, including log
    pub message_bank: MessageBank,
    /// Key-Value store which the system actually maintains
    pub store: VecMap<Key, Value>,
}

/// Every inner map of a map of maps has no key twice.
pub open spec fn inner_maps_wf<K: crate::vec_map::Keyed, J: crate::vec_map::Keyed, V: View>(
    m: VecMap<K, VecMap<J, V>>,
) -> bool {
    forall|i: int| 0 <= i < m.entries@.len() ==> (#[trigger] m.entries@[i]).1.wf()
}

/// The result of applying a request to a store: a write answers nothing, a read
/// answers what the store holds for the key.
pub open spec fn apply_result(store: Map<Seq<char>, Value>, request: ClientRequestView) -> Option<Option<Value>> {
    match request.value {
        Some(_) => None,
        None => Some(
            if store.dom().contains(request.key) {
                Some(store[request.key])
            } else {
                None
            },
        ),
    }
}

/// The store after applying a request: a write sets its key, a read leaves the
/// store as it is.
pub open spec fn apply_to_store(store: Map<Seq<char>, Value>, request: ClientRequestView) -> Map<Seq<char>, Value> {
    match request.value {
        Some(v) => store.insert(request.key, v),
        None => store,
    }
}

/// Every element of `run` is the buffered commit at `start` plus its position.
pub open spec fn is_run_prefix(m: Map<usize, VoteView>, start: int, run: Seq<VoteView>) -> bool {
    &&& start + run.len() <= usize::MAX + 1
    &&& forall|i: int| 0 <= i < run.len() ==> #[trigger] m.dom().contains((start + i) as usize)
    &&& forall|i: int| 0 <= i < run.len() ==> #[trigger] run[i] == m[(start + i) as usize]
}

/// `run` is the longest list of buffered commits at consecutive sequence
/// numbers `start, start + 1, ...` (stopping at the largest `usize`).
pub open spec fn is_consecutive_run(m: Map<usize, VoteView>, start: int, run: Seq<VoteView>) -> bool {
    &&& is_run_prefix(m, start, run)
    &&& (start + run.len() > usize::MAX || !m.dom().contains((start + run.len()) as usize))
}

/// The buffered commits at consecutive sequence numbers `start, start + 1, ...`,
/// up to the first missing one (or the largest `usize`).
pub open spec fn consecutive_run(m: Map<usize, VoteView>, start: int) -> Seq<VoteView>
    decreases usize::MAX + 1 - start,
{
    if start < 0 || start > usize::MAX || !m.dom().contains(start as usize) {
        Seq::empty()
    } else {
        seq![m[start as usize]] + consecutive_run(m, start + 1)
    }
}

/// A consecutive run is the one that `consecutive_run` describes.
pub proof fn lemma_consecutive_run_unique(m: Map<usize, VoteView>, start: int, run: Seq<VoteView>)
    requires
        start >= 0,
        is_consecutive_run(m, start, run),
    ensures
        run == consecutive_run(m, start),
    decreases run.len(),
{
    if run.len() == 0 {
        assert(consecutive_run(m, start) =~= Seq::<VoteView>::empty());
    } else {
        assert(m.dom().contains((start + 0) as usize));
        assert(run[0] == m[(start + 0) as usize]);
        let rest = run.subrange(1, run.len() as int);
        assert forall|i: int| 0 <= i < rest.len() implies #[trigger] m.dom().contains((start + 1 + i) as usize) by {
            assert(m.dom().contains((start + (i + 1)) as usize));
        }
        assert forall|i: int| 0 <= i < rest.len() implies #[trigger] rest[i] == m[(start + 1 + i) as usize] by {
            assert(run[i + 1] == m[(start + (i + 1)) as usize]);
        }
        assert(is_consecutive_run(m, start + 1, rest));
        lemma_consecutive_run_unique(m, start + 1, rest);
        assert(run =~= seq![m[start as usize]] + rest);
    }
}

proof fn lemma_run_prefix_push(m: Map<usize, VoteView>, start: int, run: Seq<VoteView>, k: usize)
    requires
        is_run_prefix(m, start, run),
        start + run.len() == k,
        m.dom().contains(k),
    ensures
        is_run_prefix(m, start, run.push(m[k])),
{
    let r2 = run.push(m[k]);
    assert forall|i: int| 0 <= i < r2.len() implies #[trigger] m.dom().contains((start + i) as usize) by {
        if i < run.len() {
            assert(r2[i] == run[i]);
        } else {
            assert(start + i == k);
        }
    }
    assert forall|i: int| 0 <= i < r2.len() implies #[trigger] r2[i] == m[(start + i) as usize] by {
        if i < run.len() {
            assert(r2[i] == run[i]);
        } else {
            assert(start + i == k);
        }
    }
}

/// The store that a list of `(key, value)` pairs describes; a later pair wins
/// over an earlier one with the same key.
pub open spec fn store_of_pairs(pairs: Seq<(Seq<char>, Value)>) -> Map<Seq<char>, Value>
    decreases pairs.len(),
{
    if pairs.len() == 0 {
        Map::empty()
    } else {
        store_of_pairs(pairs.drop_last()).insert(pairs.last().0, pairs.last().1)
    }
}

/// The digest of a store: the SHA-512 hash of the JSON object that lists its
/// entries in increasing order of their keys.
pub open spec fn store_digest(store: Map<Seq<char>, Value>) -> Seq<u8> {
    sha512_of(json_object_of(ordered_entries(store)))
}

/// No key occurs twice in a list of pairs.
pub open spec fn pairs_keys_distinct(pairs: Seq<(Seq<char>, Value)>) -> bool {
    forall|i: int, j: int| 0 <= i < pairs.len() && 0 <= j < pairs.len() && i != j ==> (#[trigger] pairs[i]).0 != (#[trigger] pairs[j]).0
}

/// The store that a checkpoint carries.
pub fn store_from_pairs(pairs: &Vec<(Key, Value)>) -> (m: VecMap<Key, Value>)
    ensures
        m.wf(),
        m@ == store_of_pairs(pairs_model(pairs@)),
        pairs_keys_distinct(pairs_model(pairs@)) ==> pairs_model(m.entries@) == pairs_model(pairs@),
{
    let mut m: VecMap<Key, Value> = VecMap::new();
    let mut i: usize = 0;
    let ghost model = pairs_model(pairs@);
    while i < pairs.len()
        invariant
            i <= pairs@.len(),
            model == pairs_model(pairs@),
            m.wf(),
            m@ == store_of_pairs(model.take(i as int)),
            pairs_keys_distinct(model) ==> pairs_model(m.entries@) == model.take(i as int),
        decreases pairs@.len() - i,
    {
        let ghost pre = m;
        let k = pairs[i].0.clone();
        let v = pairs[i].1;
        assert(model.take(i + 1).drop_last() =~= model.take(i as int));
        assert(model.take(i + 1).last() == (k@, v));
        proof {
            if pairs_keys_distinct(model) {
                assert(!pre@.dom().contains(k@)) by {
                    if pre@.dom().contains(k@) {
                        let j = pre.index_of(k@);
                        pre.lemma_entry_in_map(j);
                        assert(pairs_model(pre.entries@)[j].0 == k@);
                        assert(model[j].0 == model[i as int].0);
                    }
                }
            }
        }
        m.insert(k, v);
        i = i + 1;
        proof {
            if pairs_keys_distinct(model) {
                assert(pairs_model(m.entries@) =~= model.take(i as int));
            }
        }
    }
    assert(model.take(pairs@.len() as int) =~= model);
    m
}

impl State {
    /// A replica's state before it has seen any message.
    pub fn new(config: Config, id: NodeId) -> (s: State)
        requires
            config.wf(),
        ensures
            s.wf(),
            s.config == config,
            s.id == id,
            !s.in_view_change,
            s.view == 0,
            s.seq_num == 0,
            s.last_stable_seq_num == 0,
            s.last_seq_num_committed == 0,
            s.prepare_votes@ == Map::<(usize, usize), Map<NodeId, VoteView>>::empty(),
            s.commit_votes@ == Map::<(usize, usize), Map<NodeId, ()>>::empty(),
            s.checkpoint_votes@ == Map::<(usize, Seq<u8>), Map<NodeId, ()>>::empty(),
            s.checkpoints_current_round@ == Map::<NodeId, CheckPointView>::empty(),
            s.last_checkpoint_proof@.len() == 0,
            s.view_change_votes@ == Map::<NodeId, crate::messages::ViewChangeView>::empty(),
            s.message_bank.sent_requests@ == Map::<(usize, ClientRequestView), ()>::empty(),
            s.message_bank.accepted_pre_prepare_requests@ == Map::<(usize, usize), PrePrepareView>::empty(),
            s.message_bank.outstanding_prepares@ == Map::<VoteView, ()>::empty(),
            s.message_bank.outstanding_commits@ == Map::<VoteView, ()>::empty(),
            s.message_bank.accepted_commits_not_applied@ == Map::<usize, VoteView>::empty(),
            s.message_bank.applied_commits@ == Map::<usize, (VoteView, ClientRequestView)>::empty(),
            s.message_bank.checkpoint_messages@ == Map::<(usize, Seq<u8>), CheckPointView>::empty(),
            s.store@ == Map::<Seq<char>, Value>::empty(),
    {
        let s = State {
            config,
            id,
            in_view_change: false,
            view: 0,
            seq_num: 0,
            last_stable_seq_num: 0,
            last_seq_num_committed: 0,
            prepare_votes: VecMap::new(),
            commit_votes: VecMap::new(),
            checkpoint_votes: VecMap::new(),
            checkpoints_current_round: VecMap::new(),
            last_checkpoint_proof: Vec::new(),
            view_change_votes: VecMap::new(),
            message_bank: MessageBank::new(),
            store: VecMap::new(),
        };
        s
    }

    /// The maps hold no key twice, and every node that voted for a checkpoint
    /// has its latest checkpoint on record.
    pub open spec fn wf(&self) -> bool {
        &&& self.config.wf()
        &&& self.prepare_votes.wf()
        &&& inner_maps_wf(self.prepare_votes)
        &&& self.commit_votes.wf()
        &&& inner_maps_wf(self.commit_votes)
        &&& self.checkpoint_votes.wf()
        &&& inner_maps_wf(self.checkpoint_votes)
        &&& self.checkpoints_current_round.wf()
        &&& self.view_change_votes.wf()
        &&& self.message_bank.wf()
        &&& self.store.wf()
        &&& self.checkpoint_voters_recorded()
    }

    /// Every node in a checkpoint vote set has a checkpoint in the current round.
    pub open spec fn checkpoint_voters_recorded(&self) -> bool {
        forall|i: int, id: NodeId|
            0 <= i < self.checkpoint_votes.entries@.len() && (#[trigger] self.checkpoint_votes.entries@[i]).1@.dom().contains(id)
                ==> #[trigger] self.checkpoints_current_round@.dom().contains(id)
    }

    pub open spec fn leader_of(&self, view: usize) -> NodeId {
        (view % self.config.num_nodes) as NodeId
    }

    pub fn current_leader(&self) -> (r: NodeId)
        requires
            self.config.num_nodes > 0,
        ensures
            r == self.leader_of(self.view),
            r < self.config.num_nodes,
    {
        self.get_leader_for_view(self.view)
    }

    pub fn get_leader_for_view(&self, view: usize) -> (r: NodeId)
        requires
            self.config.num_nodes > 0,
        ensures
            r == self.leader_of(view),
            r < self.config.num_nodes,
    {
        view % self.config.num_nodes
    }

    pub open spec fn accepts_pre_prepare(&self, p: PrePrepareView) -> bool {
        &&& !self.in_view_change
        &&& self.view == p.view
        &&& p.digest == request_digest(p.client_request)
        &&& self.message_bank.accepted_pre_prepare_requests@.dom().contains((p.view, p.seq_num))
            ==> self.message_bank.accepted_pre_prepare_requests@[(p.view, p.seq_num)].digest == p.digest
    }

    pub fn should_accept_pre_prepare(&self, pre_prepare: &PrePrepare) -> (r: bool)
        requires
            self.message_bank.wf(),
        ensures
            r == self.accepts_pre_prepare(pre_prepare@),
    {
        if self.in_view_change {
            return false;
        }
        if self.view != pre_prepare.view {
            return false;
        }
        if !crate::vec_map::bytes_eq(&pre_prepare.digest, &pre_prepare.client_request.hash()) {
            return false;
        }
        if let Some(e_pre_prepare) = self.message_bank.accepted_pre_prepare_requests.get(
            &(pre_prepare.view, pre_prepare.seq_num),
        ) {
            // if we already saw a pre-prepare request for this (view, seq-num) pair,
            // then we will accept as along as the message digests are the same
            return crate::vec_map::bytes_eq(&e_pre_prepare.digest, &pre_prepare.digest);
        }
        true
    }

    pub open spec fn accepts_prepare(&self, p: VoteView) -> bool {
        &&& !self.in_view_change
        &&& self.view == p.view
        &&& self.message_bank.accepted_pre_prepare_requests@.dom().contains((p.view, p.seq_num))
        &&& p.digest == request_digest(
            self.message_bank.accepted_pre_prepare_requests@[(p.view, p.seq_num)].client_request,
        )
    }

    pub fn should_accept_prepare(&self, prepare: &Prepare) -> (r: bool)
        requires
            self.message_bank.wf(),
        ensures
            r == self.accepts_prepare(prepare@),
    {
        if self.in_view_change {
            return false;
        }
        if self.view != prepare.view {
            return false;
        }
        // make sure we already saw a request with given view and sequence number,
        // and make sure that the digests are correct.
        if let Some(e_request) = self.message_bank.accepted_pre_prepare_requests.get(
            &(prepare.view, prepare.seq_num),
        ) {
            if !crate::vec_map::bytes_eq(&prepare.digest, &e_request.client_request.hash()) {
                return false;
            }
        } else {
            // we have not seen a pre_prepare message for any request
            // with this given (view, seq_num) pair, so we cannot accept a prepare
            // for this request
            return false;
        }
        true
    }

    pub open spec fn accepts_commit(&self, c: VoteView) -> bool {
        !self.in_view_change && self.view == c.view
    }

    pub fn should_accept_commit(&self, commit: &Commit) -> (r: bool)
        ensures
            r == self.accepts_commit(commit@),
    {
        if self.in_view_change {
            return false;
        }
        if self.view != commit.view {
            return false;
        }
        true
    }

    pub fn should_process_client_request(&self, _request: &ClientRequest) -> (r: bool)
        ensures
            r == !self.in_view_change,
    {
        // this will only be called by the master replica
        if self.in_view_change {
            return false;
        }
        // maintain timestamp of last request we applied to our state from the client
        // if the timestamp is too small, then we do not accept the message
        true
    }

    pub fn should_accept_checkpoint(&self, _checkpoint: &CheckPoint) -> (r: bool)
        ensures
            r,
    {
        // note that we accept checkpoint messages as long as they have been properly signed,
        // which must be the case by the time the message gets to this consensus layer
        true
    }

    pub open spec fn accepts_view_change(&self, new_view: usize) -> bool {
        new_view == self.view + 1 && self.leader_of(new_view) == self.id
    }

    pub fn should_accept_view_change(&self, view_change: &ViewChange) -> (r: bool)
        requires
            view_change.new_view == self.view + 1 ==> self.config.num_nodes > 0,
        ensures
            r == self.accepts_view_change(view_change.new_view),
    {
        // make sure the view change is for the next view
        if view_change.new_view == 0 || view_change.new_view - 1 != self.view {
            return false;
        }
        // if we are not the leader for the next view, then we don't accept the view change
        if self.get_leader_for_view(view_change.new_view) != self.id {
            return false;
        }
        true
    }

    pub fn should_accept_new_view(&self, _new_view: &NewView) -> (r: bool)
        ensures
            r,
    {
        // as long as the new view message is well formed, we should always accept it
        true
    }

    /// The buffered commits at consecutive sequence numbers from `start` on.
    pub fn consecutive_commits_from(&self, start: usize) -> (r: Vec<Commit>)
        requires
            self.message_bank.wf(),
        ensures
            is_consecutive_run(self.message_bank.accepted_commits_not_applied@, start as int, views_of(r@)),
    {
        let mut new_applies = Vec::<Commit>::new();
        let mut try_commit = start;
        let ghost m = self.message_bank.accepted_commits_not_applied@;
        let ghost mut run: Seq<VoteView> = Seq::empty();
        assert(views_of(new_applies@) =~= run);
        loop
            invariant_except_break
                start <= try_commit,
                try_commit - start == run.len(),
                is_run_prefix(m, start as int, run),
            invariant
                self.message_bank.wf(),
                m == self.message_bank.accepted_commits_not_applied@,
                views_of(new_applies@) == run,
            ensures
                is_consecutive_run(m, start as int, run),
            decreases usize::MAX - try_commit,
        {
            match self.message_bank.accepted_commits_not_applied.get(&try_commit) {
                Some(commit) => {
                    let c = commit.clone();
                    proof {
                        lemma_run_prefix_push(m, start as int, run, try_commit);
                        run = run.push(c@);
                    }
                    new_applies.push(c);
                    assert(views_of(new_applies@) =~= run);
                    if try_commit == usize::MAX {
                        break;
                    }
                    try_commit = try_commit + 1;
                },
                None => {
                    break;
                },
            }
        }
        new_applies
    }

    /// The buffered commits that directly follow the last applied one.
    pub fn get_next_consecutive_commits(&self) -> (r: Vec<Commit>)
        requires
            self.message_bank.wf(),
        ensures
            is_consecutive_run(
                self.message_bank.accepted_commits_not_applied@,
                self.last_seq_num_committed + 1,
                views_of(r@),
            ),
    {
        if self.last_seq_num_committed == usize::MAX {
            Vec::new()
        } else {
            self.consecutive_commits_from(self.last_seq_num_committed + 1)
        }
    }

    /// Applies `request`, committed at `commit.seq_num`, to the store. Returns what
    /// the request reads (`None` for a write) and the buffered commits that now
    /// follow it directly.
    pub fn apply_commit(&mut self, request: &ClientRequest, commit: &Commit) -> (r: (
        Option<Option<Value>>,
        Vec<Commit>,
    ))
        requires
            old(self).wf(),
        ensures
            final(self).wf(),
            final(self).last_seq_num_committed == commit.seq_num,
            final(self).message_bank.accepted_commits_not_applied@
                == old(self).message_bank.accepted_commits_not_applied@.remove(commit.seq_num),
            final(self).message_bank.applied_commits@ == old(self).message_bank.applied_commits@.insert(
                commit.seq_num,
                (commit@, request@),
            ),
            final(self).store@ == apply_to_store(old(self).store@, request@),
            r.0 == apply_result(old(self).store@, request@),
            is_consecutive_run(
                final(self).message_bank.accepted_commits_not_applied@,
                commit.seq_num + 1,
                views_of(r.1@),
            ),
            final(self).config == old(self).config,
            final(self).id == old(self).id,
            final(self).in_view_change == old(self).in_view_change,
            final(self).view == old(self).view,
            final(self).seq_num == old(self).seq_num,
            final(self).last_stable_seq_num == old(self).last_stable_seq_num,
            final(self).prepare_votes == old(self).prepare_votes,
            final(self).commit_votes == old(self).commit_votes,
            final(self).checkpoint_votes == old(self).checkpoint_votes,
            final(self).checkpoints_current_round == old(self).checkpoints_current_round,
            final(self).last_checkpoint_proof == old(self).last_checkpoint_proof,
            final(self).view_change_votes == old(self).view_change_votes,
            final(self).message_bank.sent_requests == old(self).message_bank.sent_requests,
            final(self).message_bank.accepted_pre_prepare_requests
                == old(self).message_bank.accepted_pre_prepare_requests,
            final(self).message_bank.outstanding_prepares == old(self).message_bank.outstanding_prepares,
            final(self).message_bank.outstanding_commits == old(self).message_bank.outstanding_commits,
            final(self).message_bank.checkpoint_messages == old(self).message_bank.checkpoint_messages,
    {
        self.last_seq_num_committed = commit.seq_num;
        self.message_bank.accepted_commits_not_applied.remove(&commit.seq_num);
        self.message_bank.applied_commits.insert(commit.seq_num, (commit.clone(), request.clone()));

        let commit_res = match request.value {
            Some(value) => {
                // request is a set request
                self.store.insert(request.key.clone(), value);
                None
            },
            None => {
                //request is a get request
                let ret = match self.store.get(&request.key) {
                    Some(v) => Some(*v),
                    None => None,
                };
                Some(ret)
            },
        };

        // determine if there are any outstanding commits which we can now apply
        let new_applies = if commit.seq_num == usize::MAX {
            Vec::new()
        } else {
            self.consecutive_commits_from(commit.seq_num + 1)
        };
        (commit_res, new_applies)
    }

    /// Keeps the checkpoints of the nodes that voted for `(seq_num, state_digest)`
    /// as the proof of the new stable checkpoint, and starts a new round.
    pub fn update_checkpoint_meta(&mut self, seq_num: &usize, state_digest: &Vec<u8>)
        requires
            old(self).wf(),
            old(self).checkpoint_votes@.dom().contains((*seq_num, state_digest@)),
        ensures
            final(self).wf(),
            ({
                let votes = old(self).checkpoint_votes.entries@[old(self).checkpoint_votes.index_of(
                    (*seq_num, state_digest@),
                )].1;
                &&& views_of(final(self).last_checkpoint_proof@).len() == votes.entries@.len()
                &&& forall|i: int| 0 <= i < votes.entries@.len() ==>
                    #[trigger] views_of(final(self).last_checkpoint_proof@)[i]
                        == old(self).checkpoints_current_round@[votes.entries@[i].0]
            }),
            final(self).checkpoint_votes@ == Map::<(usize, Seq<u8>), Map<NodeId, ()>>::empty(),
            final(self).checkpoints_current_round@ == Map::<NodeId, CheckPointView>::empty(),
            final(self).config == old(self).config,
            final(self).id == old(self).id,
            final(self).in_view_change == old(self).in_view_change,
            final(self).view == old(self).view,
            final(self).seq_num == old(self).seq_num,
            final(self).last_stable_seq_num == old(self).last_stable_seq_num,
            final(self).last_seq_num_committed == old(self).last_seq_num_committed,
            final(self).prepare_votes == old(self).prepare_votes,
            final(self).commit_votes == old(self).commit_votes,
            final(self).view_change_votes == old(self).view_change_votes,
            final(self).message_bank == old(self).message_bank,
            final(self).store == old(self).store,
    {
        self.last_checkpoint_proof.clear();
        let idx = self.checkpoint_votes.find(&(*seq_num, state_digest.clone())).unwrap();
        proof {
            self.checkpoint_votes.lemma_entry_in_map(idx as int);
        }
        let n = self.checkpoint_votes.entries[idx].1.entries.len();
        let mut i: usize = 0;
        while i < n
            invariant
                self.wf(),
                idx < self.checkpoint_votes.entries@.len(),
                self.checkpoint_votes == old(self).checkpoint_votes,
                self.checkpoints_current_round == old(self).checkpoints_current_round,
                n == self.checkpoint_votes.entries@[idx as int].1.entries@.len(),
                i <= n,
                self.last_checkpoint_proof@.len() == i,
                forall|j: int| 0 <= j < i ==> (#[trigger] self.last_checkpoint_proof@[j])@
                    == old(self).checkpoints_current_round@[self.checkpoint_votes.entries@[idx as int].1.entries@[j].0],
                self.config == old(self).config,
                self.id == old(self).id,
                self.in_view_change == old(self).in_view_change,
                self.view == old(self).view,
                self.seq_num == old(self).seq_num,
                self.last_stable_seq_num == old(self).last_stable_seq_num,
                self.last_seq_num_committed == old(self).last_seq_num_committed,
                self.prepare_votes == old(self).prepare_votes,
                self.commit_votes == old(self).commit_votes,
                self.view_change_votes == old(self).view_change_votes,
                self.message_bank == old(self).message_bank,
                self.store == old(self).store,
            decreases n - i,
        {
            let node_id = self.checkpoint_votes.entries[idx].1.entries[i].0;
            proof {
                let votes = self.checkpoint_votes.entries@[idx as int].1;
                assert(votes.wf());
                votes.lemma_entry_in_map(i as int);
                assert(self.checkpoint_votes.entries@[idx as int].1@.dom().contains(node_id));
                assert(self.checkpoints_current_round@.dom().contains(node_id));
            }
            let cp = self.checkpoints_current_round.get(&node_id).unwrap().clone();
            self.last_checkpoint_proof.push(cp);
            i = i + 1;
        }
        self.checkpoint_votes.clear();
        self.checkpoints_current_round.clear();
    }

    pub fn garbage_collect(&mut self)
        requires
            old(self).wf(),
        ensures
            final(self).wf(),
            old(self).message_bank.collected(final(self).message_bank, old(self).last_stable_seq_num),
            final(self).config == old(self).config,
            final(self).id == old(self).id,
            final(self).in_view_change == old(self).in_view_change,
            final(self).view == old(self).view,
            final(self).seq_num == old(self).seq_num,
            final(self).last_stable_seq_num == old(self).last_stable_seq_num,
            final(self).last_seq_num_committed == old(self).last_seq_num_committed,
            final(self).prepare_votes == old(self).prepare_votes,
            final(self).commit_votes == old(self).commit_votes,
            final(self).checkpoint_votes == old(self).checkpoint_votes,
            final(self).checkpoints_current_round == old(self).checkpoints_current_round,
            final(self).last_checkpoint_proof == old(self).last_checkpoint_proof,
            final(self).view_change_votes == old(self).view_change_votes,
            final(self).store == old(self).store,
    {
        self.message_bank.garbage_collect(self.last_stable_seq_num);
    }

    /// Sha512 hash of the state store: of the JSON object that lists the
    /// store's entries in increasing order of their keys.
    pub fn digest(&self) -> (r: Vec<u8>)
        requires
            self.store.wf(),
        ensures
            r@ == store_digest(self.store@),
            r@.len() == 64,
    {
        let entries = ordered_store_entries(&self.store);
        let state_bytes = json_object(&entries);
        sha512(&state_bytes)
    }
}

} // verus!

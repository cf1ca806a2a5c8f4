//! The consensus engine of a replica.
//!
//! The engine reacts to one command at a time: it updates the replica's state
//! and answers with the actions that the replica's runtime performs (hand a
//! command back to the engine, hand a message to the network layer, start a
//! timer). Every handler states exactly how the state changes and which actions
//! come out, in order.
use vstd::prelude::*;

use crate::config::Config;
use crate::messages::{
    clone_checkpoints, no_op_request, pre_prepare_for, request_digest, views_of,
    vote_matches_pre_prepare, vote_matches_vote, CheckPoint, CheckPointView, ClientRequest,
    ClientRequestView, ClientResponse, ClientResponseView, Commit, ConsensusCommand,
    ConsensusCommandView, Message, MessageView, NewView, NewViewView, NodeCommand, NodeCommandView,
    PrePrepare, PrePrepareView, Prepare, PreparedCertificate, PreparedCertificateView, ViewChange,
    ViewChangeView, VoteView,
};
use crate::state::{
    apply_result, apply_to_store, consecutive_run, lemma_consecutive_run_unique,
    pairs_keys_distinct, store_from_pairs, store_of_pairs, State,
};
use crate::vec_map::{model_insert, VecMap};
use crate::view_changer::ViewChanger;
use crate::{NodeId, Value};

verus! {

/// What the runtime around the engine does after a command.
pub enum Action {
    /// Hand a command back to this replica's consensus engine
    ToConsensus(ConsensusCommand),
    /// Hand a command to this replica's network layer
    ToNode(NodeCommand),
    /// After the request timeout, ask the view changer whether the request is
    /// still waited on (`ViewChanger::wait_for`)
    WatchRequest(ClientRequest),
    /// After the rebroadcast timeout, ask the view changer whether the
    /// pre-prepare at `(view, seq_num)` is still waited on
    /// (`ViewChanger::wait_for_sent_pre_prepares`)
    WatchPrePrepare((usize, usize)),
    /// Stop the engine
    Stop,
}

pub ghost enum ActionView {
    ToConsensus(ConsensusCommandView),
    ToNode(NodeCommandView),
    WatchRequest(ClientRequestView),
    WatchPrePrepare((usize, usize)),
    Stop,
}

impl View for Action {
    type V = ActionView;

    open spec fn view(&self) -> ActionView {
        match self {
            Action::ToConsensus(c) => ActionView::ToConsensus(c@),
            Action::ToNode(c) => ActionView::ToNode(c@),
            Action::WatchRequest(r) => ActionView::WatchRequest(r@),
            Action::WatchPrePrepare(p) => ActionView::WatchPrePrepare(*p),
            Action::Stop => ActionView::Stop,
        }
    }
}

/// Broadcast `m` to the cluster.
pub open spec fn broadcast(m: MessageView) -> ActionView {
    ActionView::ToNode(NodeCommandView::Broadcast { message: m })
}

/// Send `m` to the node listening on `destination`.
pub open spec fn send(destination: Seq<char>, m: MessageView) -> ActionView {
    ActionView::ToNode(NodeCommandView::Send { destination, message: m })
}

/// Hand `c` back to the consensus engine.
pub open spec fn to_self(c: ConsensusCommandView) -> ActionView {
    ActionView::ToConsensus(c)
}

/// Is the number of votes `n` more than twice the number of faulty nodes?
pub open spec fn exceeds_two_f(n: nat, f: usize) -> bool {
    n > 2 * f
}

pub struct Consensus {
    /// Id of the current node
    pub id: NodeId,
    /// Configuration of the cluster this node is in
    pub config: Config,
    /// Keypair of the node
    pub keypair_bytes: Vec<u8>,
    /// Current State of the Consensus
    pub state: State,
    /// Responsible for outstanding requests and changing views
    pub view_changer: ViewChanger,
}

/// Models of a list of actions.
pub open spec fn actions_view(a: Seq<Action>) -> Seq<ActionView> {
    views_of(a)
}

impl Consensus {
    /// The engine's state is usable: its maps hold no key twice, and the state
    /// keeps the engine's id and configuration.
    pub open spec fn wf(&self) -> bool {
        &&& self.config.wf()
        &&& self.state.wf()
        &&& self.view_changer.wf()
        &&& self.state.config@ == self.config@
        &&& self.state.id == self.id
    }

    pub fn new(id: NodeId, config: Config, keypair_bytes: Vec<u8>) -> (c: Consensus)
        requires
            config.wf(),
        ensures
            c.wf(),
            c.id == id,
            c.config == config,
            c.keypair_bytes == keypair_bytes,
            !c.state.in_view_change,
            c.state.view == 0,
            c.state.seq_num == 0,
            c.state.last_stable_seq_num == 0,
            c.state.last_seq_num_committed == 0,
            c.state.store@ == Map::<Seq<char>, Value>::empty(),
            c.state.config@ == config@,
            c.state.id == id,
            c.state.prepare_votes@ == Map::<(usize, usize), Map<NodeId, VoteView>>::empty(),
            c.state.commit_votes@ == Map::<(usize, usize), Map<NodeId, ()>>::empty(),
            c.state.checkpoint_votes@ == Map::<(usize, Seq<u8>), Map<NodeId, ()>>::empty(),
            c.state.checkpoints_current_round@ == Map::<NodeId, CheckPointView>::empty(),
            c.state.last_checkpoint_proof@.len() == 0,
            c.state.view_change_votes@ == Map::<NodeId, ViewChangeView>::empty(),
            c.state.message_bank.sent_requests@ == Map::<(usize, ClientRequestView), ()>::empty(),
            c.state.message_bank.accepted_pre_prepare_requests@ == Map::<(usize, usize), PrePrepareView>::empty(),
            c.state.message_bank.outstanding_prepares@ == Map::<VoteView, ()>::empty(),
            c.state.message_bank.outstanding_commits@ == Map::<VoteView, ()>::empty(),
            c.state.message_bank.accepted_commits_not_applied@ == Map::<usize, VoteView>::empty(),
            c.state.message_bank.applied_commits@ == Map::<usize, (VoteView, ClientRequestView)>::empty(),
            c.state.message_bank.checkpoint_messages@ == Map::<(usize, Seq<u8>), CheckPointView>::empty(),
            c.view_changer.id == id,
            c.view_changer.config@ == config@,
            c.view_changer.wait_set@.dom() == Set::<ClientRequestView>::empty(),
            c.view_changer.sent_pre_prepares@.dom() == Set::<(usize, usize)>::empty(),
    {
        let state = State::new(config.clone(), id);
        let view_changer = ViewChanger::new(id, config.clone());
        Consensus { id, config, keypair_bytes, state, view_changer }
    }
}

// ---------------------------------------------------------------------------
// What stays the same
// ---------------------------------------------------------------------------

/// Only the state's message bank may differ.
pub open spec fn only_bank_changed(old: Consensus, new: Consensus) -> bool {
    &&& new.id == old.id
    &&& new.config == old.config
    &&& new.keypair_bytes == old.keypair_bytes
    &&& new.view_changer == old.view_changer
    &&& new.state == State { message_bank: new.state.message_bank, ..old.state }
}

/// Only the engine's state may differ.
pub open spec fn only_state_changed(old: Consensus, new: Consensus) -> bool {
    &&& new.id == old.id
    &&& new.config == old.config
    &&& new.keypair_bytes == old.keypair_bytes
    &&& new.view_changer == old.view_changer
}

/// Only the view changer and the engine's state may differ.
pub open spec fn only_state_and_waits_changed(old: Consensus, new: Consensus) -> bool {
    &&& new.id == old.id
    &&& new.config == old.config
    &&& new.keypair_bytes == old.keypair_bytes
    &&& new.view_changer.id == old.view_changer.id
    &&& new.view_changer.config == old.view_changer.config
}

/// The altered request that an equivocating leader sends to even-numbered nodes.
pub open spec fn equivocated_request(r: ClientRequestView) -> ClientRequestView {
    ClientRequestView { value: Some(42u32), ..r }
}

/// What an equivocating leader sends: to each node in the configuration, in
/// order, a pre-prepare at `(view, seq_num)`; even-numbered nodes get the
/// request with its value replaced by 42, odd-numbered ones the request itself.
pub open spec fn equivocation_actions(old: Consensus, r: ClientRequestView, seq_num: usize) -> Seq<ActionView> {
    old.config.peer_addrs.entries@.map_values(
        |e: (NodeId, String)|
            if e.0 % 2 == 0 {
                send(
                    e.1@,
                    MessageView::PrePrepareMessage(
                        pre_prepare_for(old.id, old.state.view, seq_num, equivocated_request(r)),
                    ),
                )
            } else {
                send(
                    e.1@,
                    MessageView::PrePrepareMessage(pre_prepare_for(old.id, old.state.view, seq_num, r)),
                )
            },
    )
}

// ---------------------------------------------------------------------------
// What each handler does
// ---------------------------------------------------------------------------

pub open spec fn process_message_post(old: Consensus, new: Consensus, m: MessageView, acts: Seq<ActionView>) -> bool {
    match m {
        MessageView::PrePrepareMessage(pp) => new == old && acts == if old.state.accepts_pre_prepare(pp) {
            seq![to_self(ConsensusCommandView::AcceptPrePrepare(pp))]
        } else {
            Seq::empty()
        },
        MessageView::PrepareMessage(p) => if old.state.accepts_prepare(p) {
            new == old && acts == seq![to_self(ConsensusCommandView::AcceptPrepare(p))]
        } else {
            // a prepare that cannot be accepted yet waits for its pre-prepare
            &&& acts == Seq::<ActionView>::empty()
            &&& only_bank_changed(old, new)
            &&& new.state.message_bank == crate::message_bank::MessageBank {
                outstanding_prepares: new.state.message_bank.outstanding_prepares,
                ..old.state.message_bank
            }
            &&& old.state.message_bank.outstanding_prepares.inserted(
                new.state.message_bank.outstanding_prepares,
                p,
                (),
            )
        },
        MessageView::CommitMessage(c) => if old.state.accepts_commit(c) {
            new == old && acts == seq![to_self(ConsensusCommandView::AcceptCommit(c))]
        } else {
            &&& acts == Seq::<ActionView>::empty()
            &&& only_bank_changed(old, new)
            &&& new.state.message_bank == crate::message_bank::MessageBank {
                outstanding_commits: new.state.message_bank.outstanding_commits,
                ..old.state.message_bank
            }
            &&& old.state.message_bank.outstanding_commits.inserted(
                new.state.message_bank.outstanding_commits,
                c,
                (),
            )
        },
        MessageView::ViewChangeMessage(v) => new == old && acts == if old.state.accepts_view_change(
            v.new_view,
        ) {
            seq![to_self(ConsensusCommandView::AcceptViewChange(v))]
        } else {
            Seq::empty()
        },
        MessageView::NewViewMessage(n) => new == old && acts == seq![
            to_self(ConsensusCommandView::AcceptNewView(n)),
        ],
        MessageView::CheckPointMessage(c) => new == old && acts == seq![
            to_self(ConsensusCommandView::AcceptCheckpoint(c)),
        ],
        MessageView::ClientRequestMessage(r) => new == old && acts == if old.state.in_view_change {
            Seq::empty()
        } else if old.id != old.state.leader_of(old.state.view) {
            seq![to_self(ConsensusCommandView::MisdirectedClientRequest(r))]
        } else {
            seq![to_self(ConsensusCommandView::InitPrePrepare(r))]
        },
        MessageView::ClientResponseMessage(_) => new == old && acts == Seq::<ActionView>::empty(),
        MessageView::IdentifierMessage(_) => new == old && acts == Seq::<ActionView>::empty(),
    }
}

pub open spec fn misdirected_client_request_post(
    old: Consensus,
    new: Consensus,
    r: ClientRequestView,
    acts: Seq<ActionView>,
) -> bool {
    if old.state.message_bank.sent_requests@.dom().contains((old.state.view, r))
        || old.config.is_equivocator {
        new == old && acts == Seq::<ActionView>::empty()
    } else {
        &&& only_state_and_waits_changed(old, new)
        &&& new.state == State { message_bank: new.state.message_bank, ..old.state }
        &&& new.state.message_bank == crate::message_bank::MessageBank {
            sent_requests: new.state.message_bank.sent_requests,
            ..old.state.message_bank
        }
        &&& old.state.message_bank.sent_requests.inserted(
            new.state.message_bank.sent_requests,
            (old.state.view, r),
            (),
        )
        &&& new.view_changer == ViewChanger { wait_set: new.view_changer.wait_set, ..old.view_changer }
        &&& old.view_changer.wait_set.inserted(new.view_changer.wait_set, r, ())
        &&& acts == seq![
            send(
                old.config@.peer_addrs[old.state.leader_of(old.state.view)],
                MessageView::ClientRequestMessage(r),
            ),
        ] + if old.view_changer.wait_set@.dom().contains(r) {
            Seq::<ActionView>::empty()
        } else {
            seq![ActionView::WatchRequest(r)]
        }
    }
}

pub open spec fn init_pre_prepare_post(old: Consensus, new: Consensus, r: ClientRequestView, acts: Seq<ActionView>) -> bool {
    let seq_num = (old.state.seq_num + 1) as usize;
    if old.state.message_bank.sent_requests@.dom().contains((old.state.view, r)) {
        new == old && acts == Seq::<ActionView>::empty()
    } else if old.config.is_equivocator {
        &&& only_state_changed(old, new)
        &&& new.state == State { seq_num, ..old.state }
        &&& acts == equivocation_actions(old, r, seq_num)
    } else {
        &&& only_state_and_waits_changed(old, new)
        &&& new.state == State { seq_num, message_bank: new.state.message_bank, ..old.state }
        &&& new.state.message_bank == crate::message_bank::MessageBank {
            sent_requests: new.state.message_bank.sent_requests,
            ..old.state.message_bank
        }
        &&& old.state.message_bank.sent_requests.inserted(
            new.state.message_bank.sent_requests,
            (old.state.view, r),
            (),
        )
        &&& new.view_changer == ViewChanger {
            sent_pre_prepares: new.view_changer.sent_pre_prepares,
            ..old.view_changer
        }
        &&& old.view_changer.sent_pre_prepares.inserted(
            new.view_changer.sent_pre_prepares,
            (old.state.view, seq_num),
            (),
        )
        &&& acts == seq![
            ActionView::WatchPrePrepare((old.state.view, seq_num)),
            broadcast(MessageView::PrePrepareMessage(pre_prepare_for(old.id, old.state.view, seq_num, r))),
        ]
    }
}

pub open spec fn rebroadcast_pre_prepare_post(
    old: Consensus,
    new: Consensus,
    view_seq_num_pair: (usize, usize),
    acts: Seq<ActionView>,
) -> bool {
    &&& new == old
    &&& acts == if old.state.message_bank.accepted_pre_prepare_requests@.dom().contains(view_seq_num_pair) {
        let pp = old.state.message_bank.accepted_pre_prepare_requests@[view_seq_num_pair];
        seq![
            broadcast(MessageView::PrePrepareMessage(pp)),
            ActionView::WatchPrePrepare((pp.view, pp.seq_num)),
        ]
    } else {
        // the pre-prepare is no longer on record: the engine stops
        seq![ActionView::Stop]
    }
}

pub open spec fn enter_commit_post(old: Consensus, new: Consensus, p: VoteView, acts: Seq<ActionView>) -> bool {
    &&& new == old
    &&& acts == seq![
        broadcast(
            MessageView::CommitMessage(
                VoteView { id: old.id, view: p.view, seq_num: p.seq_num, digest: p.digest, signature: 0 },
            ),
        ),
    ]
}

/// Prepares buffered in `keys` that match `pp`, each handed back to be
/// accepted, in buffer order.
pub open spec fn prepares_matching(keys: Seq<VoteView>, pp: PrePrepareView) -> Seq<ActionView>
    decreases keys.len(),
{
    if keys.len() == 0 {
        Seq::empty()
    } else {
        prepares_matching(keys.drop_last(), pp) + if vote_matches_pre_prepare(keys.last(), pp) {
            seq![to_self(ConsensusCommandView::AcceptPrepare(keys.last()))]
        } else {
            Seq::<ActionView>::empty()
        }
    }
}

/// Commits buffered in `keys` that match prepare `p`, each handed back to be
/// accepted, in buffer order.
pub open spec fn commits_matching(keys: Seq<VoteView>, p: VoteView) -> Seq<ActionView>
    decreases keys.len(),
{
    if keys.len() == 0 {
        Seq::empty()
    } else {
        commits_matching(keys.drop_last(), p) + if vote_matches_vote(keys.last(), p) {
            seq![to_self(ConsensusCommandView::AcceptCommit(keys.last()))]
        } else {
            Seq::<ActionView>::empty()
        }
    }
}

pub open spec fn accept_pre_prepare_post(old: Consensus, new: Consensus, pp: PrePrepareView, acts: Seq<ActionView>) -> bool {
    &&& only_state_and_waits_changed(old, new)
    &&& new.state == State { message_bank: new.state.message_bank, ..old.state }
    &&& new.state.message_bank == crate::message_bank::MessageBank {
        accepted_pre_prepare_requests: new.state.message_bank.accepted_pre_prepare_requests,
        ..old.state.message_bank
    }
    &&& old.state.message_bank.accepted_pre_prepare_requests.inserted(
        new.state.message_bank.accepted_pre_prepare_requests,
        (pp.view, pp.seq_num),
        pp,
    )
    &&& new.view_changer == ViewChanger { wait_set: new.view_changer.wait_set, ..old.view_changer }
    &&& old.view_changer.wait_set.inserted(new.view_changer.wait_set, pp.client_request, ())
    &&& acts == seq![
        broadcast(
            MessageView::PrepareMessage(
                VoteView {
                    id: old.id,
                    view: pp.view,
                    seq_num: pp.seq_num,
                    digest: request_digest(pp.client_request),
                    signature: 0,
                },
            ),
        ),
    ] + prepares_matching(old.state.message_bank.outstanding_prepares.keys(), pp)
        + if old.view_changer.wait_set@.dom().contains(pp.client_request) {
        Seq::<ActionView>::empty()
    } else {
        seq![ActionView::WatchRequest(pp.client_request)]
    }
}

pub open spec fn accept_prepare_post(old: Consensus, new: Consensus, p: VoteView, acts: Seq<ActionView>) -> bool {
    let key = (p.view, p.seq_num);
    let votes = old.state.prepare_votes;
    &&& only_state_changed(old, new)
    &&& new.state == State {
        prepare_votes: new.state.prepare_votes,
        message_bank: new.state.message_bank,
        ..old.state
    }
    &&& new.state.message_bank == crate::message_bank::MessageBank {
        outstanding_prepares: new.state.message_bank.outstanding_prepares,
        ..old.state.message_bank
    }
    &&& old.state.message_bank.outstanding_prepares.removed(new.state.message_bank.outstanding_prepares, p)
    &&& if votes@.dom().contains(key) {
        let i = votes.index_of(key);
        let inner = new.state.prepare_votes.entries@[i].1;
        &&& votes.inserted(new.state.prepare_votes, key, inner@)
        &&& votes.entries@[i].1.inserted(inner, p.id, p)
        &&& acts == if exceeds_two_f(inner@.len(), old.config.num_faulty) {
            seq![to_self(ConsensusCommandView::EnterCommit(p))]
        } else {
            Seq::<ActionView>::empty()
        } + commits_matching(old.state.message_bank.outstanding_commits.keys(), p)
    } else {
        // first time we got a prepare message for this view and sequence number
        let inner = new.state.prepare_votes.entries@[votes.entries@.len() as int].1;
        &&& votes.inserted(new.state.prepare_votes, key, inner@)
        &&& inner.wf()
        &&& inner@ == map![p.id => p]
        &&& inner.keys() == seq![p.id]
        &&& inner.values() == seq![p]
        &&& acts == if exceeds_two_f(1, old.config.num_faulty) {
            seq![to_self(ConsensusCommandView::EnterCommit(p))]
        } else {
            Seq::<ActionView>::empty()
        } + commits_matching(old.state.message_bank.outstanding_commits.keys(), p)
    }
}

pub open spec fn accept_commit_post(old: Consensus, new: Consensus, c: VoteView, acts: Seq<ActionView>) -> bool {
    let key = (c.view, c.seq_num);
    let votes = old.state.commit_votes;
    &&& only_state_changed(old, new)
    &&& new.state == State {
        commit_votes: new.state.commit_votes,
        message_bank: new.state.message_bank,
        ..old.state
    }
    &&& new.state.message_bank == crate::message_bank::MessageBank {
        outstanding_commits: new.state.message_bank.outstanding_commits,
        ..old.state.message_bank
    }
    &&& old.state.message_bank.outstanding_commits.removed(new.state.message_bank.outstanding_commits, c)
    &&& if votes@.dom().contains(key) {
        let i = votes.index_of(key);
        let inner = new.state.commit_votes.entries@[i].1;
        &&& votes.inserted(new.state.commit_votes, key, inner@)
        &&& votes.entries@[i].1.inserted(inner, c.id, ())
        &&& acts == if exceeds_two_f(inner@.len(), old.config.num_faulty) {
            seq![to_self(ConsensusCommandView::ApplyCommit(c))]
        } else {
            Seq::<ActionView>::empty()
        }
    } else {
        // first time we got a commit message for this view and sequence number
        let inner = new.state.commit_votes.entries@[votes.entries@.len() as int].1;
        &&& votes.inserted(new.state.commit_votes, key, inner@)
        &&& inner.wf()
        &&& inner@ == map![c.id => ()]
        &&& inner.keys() == seq![c.id]
        &&& acts == if exceeds_two_f(1, old.config.num_faulty) {
            seq![to_self(ConsensusCommandView::ApplyCommit(c))]
        } else {
            Seq::<ActionView>::empty()
        }
    }
}

/// The value that a client response reports for a request.
pub open spec fn response_value(result: Option<Option<Value>>) -> Option<Value> {
    match result {
        Some(Some(v)) => Some(v),
        _ => None,
    }
}

/// Hand each commit back to be applied, in order.
pub open spec fn apply_actions(commits: Seq<VoteView>) -> Seq<ActionView> {
    commits.map_values(|c: VoteView| to_self(ConsensusCommandView::ApplyCommit(c)))
}

pub open spec fn apply_commit_post(
    old: Consensus,
    new: Consensus,
    c: VoteView,
    r: ClientRequestView,
    acts: Seq<ActionView>,
) -> bool {
    let bank = old.state.message_bank;
    // the request is no longer waited on
    &&& only_state_and_waits_changed(old, new)
    &&& new.view_changer == ViewChanger {
        wait_set: new.view_changer.wait_set,
        sent_pre_prepares: new.view_changer.sent_pre_prepares,
        ..old.view_changer
    }
    &&& old.view_changer.wait_set.removed(new.view_changer.wait_set, r)
    &&& old.view_changer.sent_pre_prepares.removed(new.view_changer.sent_pre_prepares, (c.view, c.seq_num))
    &&& if c.seq_num == old.state.last_seq_num_committed + 1 {
        // the next request in order: apply it, answer the client, and apply
        // the buffered commits that follow it
        &&& new.state == State {
            last_seq_num_committed: c.seq_num,
            message_bank: new.state.message_bank,
            store: new.state.store,
            ..old.state
        }
        &&& new.state.message_bank == crate::message_bank::MessageBank {
            accepted_commits_not_applied: new.state.message_bank.accepted_commits_not_applied,
            applied_commits: new.state.message_bank.applied_commits,
            ..bank
        }
        &&& new.state.message_bank.accepted_commits_not_applied@ == bank.accepted_commits_not_applied@.remove(c.seq_num)
        &&& new.state.message_bank.applied_commits@ == bank.applied_commits@.insert(c.seq_num, (c, r))
        &&& new.state.store@ == apply_to_store(old.state.store@, r)
        &&& acts == apply_actions(consecutive_run(new.state.message_bank.accepted_commits_not_applied@, c.seq_num + 1)) + seq![
            send(
                r.respond_addr,
                MessageView::ClientResponseMessage(
                    ClientResponseView {
                        id: old.id,
                        time_stamp: r.time_stamp,
                        key: r.key,
                        value: response_value(apply_result(old.state.store@, r)),
                        success: true,
                        signature: 0,
                    },
                ),
            ),
        ]
    } else if c.seq_num > old.state.last_seq_num_committed + 1 {
        //the sequence number for this commit is too large, so we do not apply it yet
        &&& new.state == State { message_bank: new.state.message_bank, ..old.state }
        &&& new.state.message_bank == crate::message_bank::MessageBank {
            accepted_commits_not_applied: new.state.message_bank.accepted_commits_not_applied,
            ..bank
        }
        &&& bank.accepted_commits_not_applied.inserted(new.state.message_bank.accepted_commits_not_applied, c.seq_num, c)
        &&& acts == Seq::<ActionView>::empty()
    } else {
        new.state == old.state && acts == Seq::<ActionView>::empty()
    }
}

/// The checkpoint of the engine's current state, broadcast to the cluster.
pub open spec fn checkpoint_action(s: Consensus) -> ActionView {
    broadcast(
        MessageView::CheckPointMessage(
            CheckPointView {
                id: s.id,
                committed_seq_num: s.state.last_seq_num_committed,
                view: s.state.view,
                state_digest: crate::state::store_digest(s.state.store@),
                state: crate::crypto::pairs_model(s.state.store.entries@),
                signature: 0,
            },
        ),
    )
}

/// Does the engine's last applied request complete a checkpoint interval?
pub open spec fn checkpoint_due(s: Consensus) -> bool {
    s.state.last_seq_num_committed % s.config.checkpoint_frequency == 0
        && s.state.last_seq_num_committed > s.state.last_stable_seq_num
}

pub open spec fn apply_accepted_commit_post(old: Consensus, new: Consensus, c: VoteView, acts: Seq<ActionView>) -> bool {
    let key = (c.view, c.seq_num);
    let accepted = old.state.message_bank.accepted_pre_prepare_requests@;
    if !accepted.dom().contains(key) {
        new == old && acts == Seq::<ActionView>::empty()
    } else if checkpoint_due(new) {
        // The request we just committed was enough to now trigger a checkpoint
        &&& acts.len() > 0
        &&& apply_commit_post(old, new, c, accepted[key].client_request, acts.drop_last())
        &&& acts.last() == checkpoint_action(new)
    } else {
        apply_commit_post(old, new, c, accepted[key].client_request, acts)
    }
}

/// The nodes that have voted for the checkpoint at `key` once `cp` is counted.
pub open spec fn checkpoint_voters_after(
    votes: VecMap<(usize, Vec<u8>), VecMap<NodeId, ()>>,
    key: (usize, Seq<u8>),
    cp: CheckPointView,
) -> Map<NodeId, ()> {
    if votes@.dom().contains(key) {
        votes@[key].insert(cp.id, ())
    } else {
        map![cp.id => ()]
    }
}

/// Those voters in the order their votes came in.
pub open spec fn checkpoint_voter_order(
    votes: VecMap<(usize, Vec<u8>), VecMap<NodeId, ()>>,
    key: (usize, Seq<u8>),
    cp: CheckPointView,
) -> Seq<NodeId> {
    if votes@.dom().contains(key) {
        votes.entries@[votes.index_of(key)].1.keys() + if votes@[key].dom().contains(cp.id) {
            Seq::<NodeId>::empty()
        } else {
            seq![cp.id]
        }
    } else {
        seq![cp.id]
    }
}

pub open spec fn accept_checkpoint_post(old: Consensus, new: Consensus, cp: CheckPointView, acts: Seq<ActionView>) -> bool {
    let key = (cp.committed_seq_num, cp.state_digest);
    let votes = old.state.checkpoint_votes;
    let bank = old.state.message_bank;
    &&& new.id == old.id
    &&& new.config == old.config
    &&& new.keypair_bytes == old.keypair_bytes
    &&& if exceeds_two_f(checkpoint_voters_after(votes, key, cp).len(), old.config.num_faulty) {
        // more than 2f checkpoint messages: the checkpoint becomes stable
        let voters = checkpoint_voter_order(votes, key, cp);
        let round = old.state.checkpoints_current_round@.insert(cp.id, cp);
        let behind = old.state.last_seq_num_committed < cp.committed_seq_num;
        &&& new.state.config == old.state.config
        &&& new.state.id == old.state.id
        &&& new.state.seq_num == old.state.seq_num
        &&& new.state.prepare_votes == old.state.prepare_votes
        &&& new.state.commit_votes == old.state.commit_votes
        &&& new.state.view_change_votes == old.state.view_change_votes
        // a replica that is behind fast-forwards to the checkpointed store
        &&& new.state.last_seq_num_committed == if behind {
            cp.committed_seq_num
        } else {
            old.state.last_seq_num_committed
        }
        &&& behind ==> new.state.store@ == store_of_pairs(cp.state)
        &&& behind && pairs_keys_distinct(cp.state) ==> crate::crypto::pairs_model(new.state.store.entries@) == cp.state
        &&& !behind ==> new.state.store == old.state.store
        // the voters' checkpoints become the proof of the stable checkpoint
        &&& views_of(new.state.last_checkpoint_proof@) == voters.map_values(|id: NodeId| round[id])
        &&& new.state.checkpoint_votes@ == Map::<(usize, Seq<u8>), Map<NodeId, ()>>::empty()
        &&& new.state.checkpoints_current_round@ == Map::<NodeId, CheckPointView>::empty()
        &&& new.state.last_stable_seq_num == cp.committed_seq_num
        &&& new.state.view == cp.view
        &&& if cp.view != old.state.view {
            // moving to another view ends any view change this replica started
            &&& !new.state.in_view_change
            &&& new.view_changer.id == old.view_changer.id
            &&& new.view_changer.config == old.view_changer.config
            &&& new.view_changer.wait_set@.dom() == Set::<ClientRequestView>::empty()
            &&& new.view_changer.wait_set.entries@.len() == 0
            &&& new.view_changer.sent_pre_prepares@.dom() == Set::<(usize, usize)>::empty()
        } else {
            new.state.in_view_change == old.state.in_view_change && new.view_changer == old.view_changer
        }
        // requests whose commits were buffered may now be applied
        &&& acts == apply_actions(
            consecutive_run(bank.accepted_commits_not_applied@, new.state.last_seq_num_committed + 1),
        )
        // messages about requests before the stable checkpoint are dropped
        &&& new.state.message_bank.checkpoint_messages@ == bank.checkpoint_messages@.insert(key, cp).restrict(
            Set::new(|k: (usize, Seq<u8>)| k.0 >= cp.committed_seq_num),
        )
        &&& new.state.message_bank.accepted_pre_prepare_requests@ == bank.accepted_pre_prepare_requests@.restrict(
            Set::new(|k: (usize, usize)| k.1 >= cp.committed_seq_num),
        )
        &&& new.state.message_bank.outstanding_prepares@ == bank.outstanding_prepares@.restrict(
            Set::new(|p: VoteView| p.seq_num >= cp.committed_seq_num),
        )
        &&& new.state.message_bank.outstanding_commits@ == bank.outstanding_commits@.restrict(
            Set::new(|c: VoteView| c.seq_num >= cp.committed_seq_num),
        )
        &&& new.state.message_bank.accepted_commits_not_applied@ == bank.accepted_commits_not_applied@.restrict(
            Set::new(|q: usize| q >= cp.committed_seq_num),
        )
        &&& new.state.message_bank.applied_commits@ == bank.applied_commits@.restrict(
            Set::new(|q: usize| q >= cp.committed_seq_num),
        )
        &&& new.state.message_bank.sent_requests == bank.sent_requests
    } else {
        &&& new.view_changer == old.view_changer
        &&& new.state == State {
            checkpoint_votes: new.state.checkpoint_votes,
            checkpoints_current_round: new.state.checkpoints_current_round,
            message_bank: new.state.message_bank,
            ..old.state
        }
        &&& new.state.message_bank == crate::message_bank::MessageBank {
            checkpoint_messages: new.state.message_bank.checkpoint_messages,
            ..bank
        }
        &&& bank.checkpoint_messages.inserted(new.state.message_bank.checkpoint_messages, key, cp)
        &&& old.state.checkpoints_current_round.inserted(new.state.checkpoints_current_round, cp.id, cp)
        &&& acts == Seq::<ActionView>::empty()
        &&& if votes@.dom().contains(key) {
            let i = votes.index_of(key);
            let inner = new.state.checkpoint_votes.entries@[i].1;
            &&& votes.inserted(new.state.checkpoint_votes, key, inner@)
            &&& votes.entries@[i].1.inserted(inner, cp.id, ())
        } else {
            // first checkpoint message for this sequence number and digest
            let inner = new.state.checkpoint_votes.entries@[votes.entries@.len() as int].1;
            &&& votes.inserted(new.state.checkpoint_votes, key, inner@)
            &&& inner.wf()
            &&& inner@ == map![cp.id => ()]
            &&& inner.keys() == seq![cp.id]
        }
    }
}

/// The evidence that the pre-prepare `pp` accepted at `key` was prepared: if
/// it comes after the last stable checkpoint and gathered more than `2f`
/// prepares, those prepares in the order they were accepted.
pub open spec fn certificate_at(s: State, f: usize, key: (usize, usize), pp: PrePrepareView) -> Option<PreparedCertificateView> {
    if key.1 > s.last_stable_seq_num && s.prepare_votes@.dom().contains(key) && exceeds_two_f(
        s.prepare_votes@[key].len(),
        f,
    ) {
        Some(
            PreparedCertificateView {
                seq_num: key.1,
                pre_prepare: pp,
                prepares: s.prepare_votes.entries@[s.prepare_votes.index_of(key)].1.values(),
            },
        )
    } else {
        None
    }
}

/// The certificates of the first `n` accepted pre-prepares, one per sequence
/// number: a later certificate for a sequence number replaces an earlier one.
pub open spec fn certificates_upto(s: State, f: usize, n: int) -> Seq<(usize, PreparedCertificateView)>
    decreases n,
{
    if n <= 0 {
        Seq::empty()
    } else {
        let prev = certificates_upto(s, f, n - 1);
        let e = s.message_bank.accepted_pre_prepare_requests.entries@[n - 1];
        match certificate_at(s, f, e.0, e.1@) {
            Some(c) => model_insert(prev, c.seq_num, c),
            None => prev,
        }
    }
}

/// The certificates that a view change reports.
pub open spec fn prepared_certificates(s: State, f: usize) -> Seq<PreparedCertificateView> {
    certificates_upto(s, f, s.message_bank.accepted_pre_prepare_requests.entries@.len() as int).map_values(
        |e: (usize, PreparedCertificateView)| e.1,
    )
}

pub open spec fn init_view_change_post(old: Consensus, new: Consensus, acts: Seq<ActionView>) -> bool {
    if old.state.in_view_change || old.state.leader_of(old.state.view) == old.id {
        // we are already in a view change state or we are currently the leader
        new == old && acts == Seq::<ActionView>::empty()
    } else {
        &&& only_state_changed(old, new)
        &&& new.state == State { in_view_change: true, ..old.state }
        &&& acts == seq![
            broadcast(
                MessageView::ViewChangeMessage(
                    ViewChangeView {
                        id: old.id,
                        new_view: (old.state.view + 1) as usize,
                        last_stable_seq_num: old.state.last_stable_seq_num,
                        checkpoint_proof: views_of(old.state.last_checkpoint_proof@),
                        subsequent_prepares: prepared_certificates(old.state, old.config.num_faulty),
                        signature: 0,
                    },
                ),
            ),
        ]
    }
}

/// The larger of two numbers.
pub open spec fn max_usize(a: usize, b: usize) -> usize {
    if a >= b {
        a
    } else {
        b
    }
}

/// The latest stable checkpoint among `init` and those of the view changes.
pub open spec fn max_stable(msgs: Seq<ViewChangeView>, init: usize) -> usize
    decreases msgs.len(),
{
    if msgs.len() == 0 {
        init
    } else {
        max_usize(max_stable(msgs.drop_last(), init), msgs.last().last_stable_seq_num)
    }
}

/// The largest sequence number among `init` and those of the certificates.
pub open spec fn max_certificate_seq(certs: Seq<PreparedCertificateView>, init: usize) -> usize
    decreases certs.len(),
{
    if certs.len() == 0 {
        init
    } else {
        max_usize(max_certificate_seq(certs.drop_last(), init), certs.last().seq_num)
    }
}

/// The largest sequence number among `init` and those that the view changes
/// report as prepared.
pub open spec fn max_prepared_seq(msgs: Seq<ViewChangeView>, init: usize) -> usize
    decreases msgs.len(),
{
    if msgs.len() == 0 {
        init
    } else {
        max_certificate_seq(msgs.last().subsequent_prepares, max_prepared_seq(msgs.drop_last(), init))
    }
}

/// The pre-prepare of the first certificate for sequence number `sq`.
pub open spec fn certificate_for(certs: Seq<PreparedCertificateView>, sq: usize) -> Option<PrePrepareView>
    decreases certs.len(),
{
    if certs.len() == 0 {
        None
    } else if certs[0].seq_num == sq {
        Some(certs[0].pre_prepare)
    } else {
        certificate_for(certs.subrange(1, certs.len() as int), sq)
    }
}

/// Among the view changes, the prepared pre-prepare for `sq` with the highest
/// view; among equal views the one reported first.
pub open spec fn highest_pre_prepare(msgs: Seq<ViewChangeView>, sq: usize) -> Option<PrePrepareView>
    decreases msgs.len(),
{
    if msgs.len() == 0 {
        None
    } else {
        let prev = highest_pre_prepare(msgs.drop_last(), sq);
        match certificate_for(msgs.last().subsequent_prepares, sq) {
            Some(pp) => if prev is None || pp.view > prev->0.view {
                Some(pp)
            } else {
                prev
            },
            None => prev,
        }
    }
}

/// The request the new leader proposes at `sq`: the prepared one with the
/// highest view, or a no-op where no replica reported one.
pub open spec fn proposal_for(msgs: Seq<ViewChangeView>, sq: usize) -> ClientRequestView {
    match highest_pre_prepare(msgs, sq) {
        Some(pp) => pp.client_request,
        None => no_op_request(),
    }
}

/// The pre-prepares that the new leader issues in view `view + 1` for every
/// sequence number after `latest` up to `max_seq`.
pub open spec fn new_view_pre_prepares(
    id: NodeId,
    view: usize,
    msgs: Seq<ViewChangeView>,
    latest: usize,
    max_seq: usize,
) -> Seq<PrePrepareView> {
    Seq::new(
        if max_seq > latest { (max_seq - latest) as nat } else { 0 },
        |i: int| pre_prepare_for(
            id,
            (view + 1) as usize,
            (latest + 1 + i) as usize,
            proposal_for(msgs, (latest + 1 + i) as usize),
        ),
    )
}

pub open spec fn accept_view_change_post(old: Consensus, new: Consensus, vc: ViewChangeView, acts: Seq<ActionView>) -> bool {
    let msgs = new.state.view_change_votes.values();
    &&& only_state_changed(old, new)
    &&& old.state.view_change_votes.inserted(new.state.view_change_votes, vc.id, vc)
    &&& if exceeds_two_f(new.state.view_change_votes@.len(), old.config.num_faulty) {
        // enough view changes: broadcast a new view
        let latest = max_stable(msgs, old.state.last_stable_seq_num);
        let max_seq = max_prepared_seq(msgs, old.state.last_stable_seq_num);
        &&& new.state == State {
            view_change_votes: new.state.view_change_votes,
            seq_num: latest,
            ..old.state
        }
        &&& acts == seq![
            broadcast(
                MessageView::NewViewMessage(
                    NewViewView {
                        id: old.id,
                        view: vc.new_view,
                        view_change_messages: msgs,
                        outstanding_pre_prepares: new_view_pre_prepares(
                            old.id,
                            old.state.view,
                            msgs,
                            latest,
                            max_seq,
                        ),
                        signature: 0,
                    },
                ),
            ),
        ]
    } else {
        &&& new.state == State { view_change_votes: new.state.view_change_votes, ..old.state }
        &&& acts == Seq::<ActionView>::empty()
    }
}

/// Ask the engine to propose each request, in order.
pub open spec fn propose_actions(requests: Seq<ClientRequestView>) -> Seq<ActionView> {
    requests.map_values(|r: ClientRequestView| to_self(ConsensusCommandView::InitPrePrepare(r)))
}

pub open spec fn accept_new_view_post(old: Consensus, new: Consensus, nv: NewViewView, acts: Seq<ActionView>) -> bool {
    &&& new.id == old.id
    &&& new.config == old.config
    &&& new.keypair_bytes == old.keypair_bytes
    &&& new.state == State {
        in_view_change: false,
        checkpoint_votes: new.state.checkpoint_votes,
        view: nv.view,
        ..old.state
    }
    &&& new.state.checkpoint_votes@ == Map::<(usize, Seq<u8>), Map<NodeId, ()>>::empty()
    // the timers of the old view are void
    &&& new.view_changer.id == old.view_changer.id
    &&& new.view_changer.config == old.view_changer.config
    &&& new.view_changer.wait_set@.dom() == Set::<ClientRequestView>::empty()
    &&& new.view_changer.wait_set.entries@.len() == 0
    &&& new.view_changer.sent_pre_prepares@.dom() == Set::<(usize, usize)>::empty()
    // a new leader proposes the requests of the new view message, then the
    // requests it was waiting on
    &&& acts == if old.state.leader_of(nv.view) == old.id {
        propose_actions(nv.outstanding_pre_prepares.map_values(|pp: PrePrepareView| pp.client_request))
            + propose_actions(old.view_changer.wait_set.keys())
    } else {
        Seq::<ActionView>::empty()
    }
}

/// What processing `m` needs: identifier messages never reach the engine, and
/// the configuration needs a node count to find the leader of the current view
/// for a client request handled outside a view change, and the leader of the
/// next view for a view change to it.
pub open spec fn process_message_requires(old: Consensus, m: MessageView) -> bool {
    match m {
        MessageView::IdentifierMessage(_) => false,
        MessageView::ClientRequestMessage(_) => !old.state.in_view_change ==> old.config.num_nodes > 0,
        MessageView::ViewChangeMessage(v) => v.new_view == old.state.view + 1 ==> old.config.num_nodes > 0,
        _ => true,
    }
}

/// Does a replica forward `r` to the leader: it has not sent it in this view,
/// and it is honest?
pub open spec fn forwards_request(old: Consensus, r: ClientRequestView) -> bool {
    !old.state.message_bank.sent_requests@.dom().contains((old.state.view, r)) && !old.config.is_equivocator
}

/// Forwarding a request needs the leader of the current view and its address.
pub open spec fn misdirected_client_request_requires(old: Consensus, r: ClientRequestView) -> bool {
    forwards_request(old, r) ==> old.config.num_nodes > 0 && old.config@.peer_addrs.dom().contains(
        old.state.leader_of(old.state.view),
    )
}

/// Applying the commit of an accepted pre-prepare tests whether a checkpoint
/// is due, which needs a positive checkpoint frequency.
pub open spec fn apply_accepted_commit_requires(old: Consensus, c: VoteView) -> bool {
    old.state.message_bank.accepted_pre_prepare_requests@.dom().contains((c.view, c.seq_num))
        ==> old.config.checkpoint_frequency > 0
}

/// What the engine may be handed: every command but the processing of an
/// identifier message (the network layer keeps those), no command that would
/// step a view or sequence number past the largest `usize`, and no command
/// that needs a part of the configuration that is missing.
pub open spec fn handle_requires(old: Consensus, cmd: ConsensusCommandView) -> bool {
    match cmd {
        ConsensusCommandView::ProcessMessage(m) => process_message_requires(old, m),
        ConsensusCommandView::MisdirectedClientRequest(r) => misdirected_client_request_requires(old, r),
        ConsensusCommandView::InitPrePrepare(_) => old.state.seq_num < usize::MAX,
        ConsensusCommandView::InitViewChange(_) => old.state.view < usize::MAX && (!old.state.in_view_change
            ==> old.config.num_nodes > 0),
        ConsensusCommandView::AcceptViewChange(_) => old.state.view < usize::MAX,
        ConsensusCommandView::AcceptNewView(_) => old.config.num_nodes > 0,
        ConsensusCommandView::ApplyCommit(c) => apply_accepted_commit_requires(old, c),
        _ => true,
    }
}

/// What handling each command does.
pub open spec fn handle_post(old: Consensus, new: Consensus, cmd: ConsensusCommandView, acts: Seq<ActionView>) -> bool {
    match cmd {
        ConsensusCommandView::ProcessMessage(m) => process_message_post(old, new, m, acts),
        ConsensusCommandView::MisdirectedClientRequest(r) => misdirected_client_request_post(old, new, r, acts),
        ConsensusCommandView::InitPrePrepare(r) => init_pre_prepare_post(old, new, r, acts),
        ConsensusCommandView::RebroadcastPrePrepare(p) => rebroadcast_pre_prepare_post(old, new, p, acts),
        ConsensusCommandView::AcceptPrePrepare(pp) => accept_pre_prepare_post(old, new, pp, acts),
        ConsensusCommandView::AcceptPrepare(p) => accept_prepare_post(old, new, p, acts),
        ConsensusCommandView::EnterCommit(p) => enter_commit_post(old, new, p, acts),
        ConsensusCommandView::AcceptCommit(c) => accept_commit_post(old, new, c, acts),
        ConsensusCommandView::InitViewChange(_) => init_view_change_post(old, new, acts),
        ConsensusCommandView::AcceptViewChange(vc) => accept_view_change_post(old, new, vc, acts),
        ConsensusCommandView::AcceptNewView(nv) => accept_new_view_post(old, new, nv, acts),
        ConsensusCommandView::ApplyCommit(c) => apply_accepted_commit_post(old, new, c, acts),
        ConsensusCommandView::AcceptCheckpoint(cp) => accept_checkpoint_post(old, new, cp, acts),
    }
}

// ---------------------------------------------------------------------------
// Building actions
// ---------------------------------------------------------------------------

fn act_to_self(c: ConsensusCommand) -> (a: Action)
    ensures
        a@ == to_self(c@),
{
    Action::ToConsensus(c)
}

fn act_broadcast(m: Message) -> (a: Action)
    ensures
        a@ == broadcast(m@),
{
    Action::ToNode(NodeCommand::broadcast(m))
}

fn act_send(destination: String, m: Message) -> (a: Action)
    ensures
        a@ == send(destination@, m@),
{
    Action::ToNode(NodeCommand::send(destination, m))
}

impl Consensus {
    pub fn process_message(&mut self, message: Message) -> (acts: Vec<Action>)
        requires
            old(self).wf(),
            process_message_requires(*old(self), message@),
        ensures
            final(self).wf(),
            process_message_post(*old(self), *final(self), message@, actions_view(acts@)),
    {
        let mut acts: Vec<Action> = Vec::new();
        let ghost m = message@;
        match message {
            Message::IdentifierMessage(_) => {
                // Identifier messages are not passed to the consensus engine
            },
            Message::PrePrepareMessage(pre_prepare) => {
                if self.state.should_accept_pre_prepare(&pre_prepare) {
                    acts.push(act_to_self(ConsensusCommand::AcceptPrePrepare(pre_prepare)));
                }
            },
            Message::PrepareMessage(prepare) => {
                if self.state.should_accept_prepare(&prepare) {
                    acts.push(act_to_self(ConsensusCommand::AcceptPrepare(prepare)));
                } else {
                    self.state.message_bank.outstanding_prepares.insert(prepare, ());
                }
            },
            Message::CommitMessage(commit) => {
                if self.state.should_accept_commit(&commit) {
                    acts.push(act_to_self(ConsensusCommand::AcceptCommit(commit)));
                } else {
                    self.state.message_bank.outstanding_commits.insert(commit, ());
                }
            },
            Message::ViewChangeMessage(view_change) => {
                if self.state.should_accept_view_change(&view_change) {
                    acts.push(act_to_self(ConsensusCommand::AcceptViewChange(view_change)));
                }
            },
            Message::NewViewMessage(new_view) => {
                if self.state.should_accept_new_view(&new_view) {
                    acts.push(act_to_self(ConsensusCommand::AcceptNewView(new_view)));
                }
            },
            Message::CheckPointMessage(checkpoint) => {
                if self.state.should_accept_checkpoint(&checkpoint) {
                    acts.push(act_to_self(ConsensusCommand::AcceptCheckpoint(checkpoint)));
                }
            },
            Message::ClientRequestMessage(client_request) => {
                if self.state.should_process_client_request(&client_request) {
                    if self.id != self.state.current_leader() {
                        acts.push(act_to_self(ConsensusCommand::MisdirectedClientRequest(client_request)));
                    } else {
                        // at this point we are the leader and we have accepted a client request
                        // which we may begin to process
                        acts.push(act_to_self(ConsensusCommand::InitPrePrepare(client_request)));
                    }
                }
            },
            Message::ClientResponseMessage(_) => {
                // we should never receive a client response message, so we ignore it
            },
        }
        proof {
            assert(actions_view(acts@) =~= match m {
                MessageView::PrePrepareMessage(pp) => if old(self).state.accepts_pre_prepare(pp) {
                    seq![to_self(ConsensusCommandView::AcceptPrePrepare(pp))]
                } else {
                    Seq::empty()
                },
                MessageView::PrepareMessage(p) => if old(self).state.accepts_prepare(p) {
                    seq![to_self(ConsensusCommandView::AcceptPrepare(p))]
                } else {
                    Seq::empty()
                },
                MessageView::CommitMessage(c) => if old(self).state.accepts_commit(c) {
                    seq![to_self(ConsensusCommandView::AcceptCommit(c))]
                } else {
                    Seq::empty()
                },
                MessageView::ViewChangeMessage(v) => if old(self).state.accepts_view_change(v.new_view) {
                    seq![to_self(ConsensusCommandView::AcceptViewChange(v))]
                } else {
                    Seq::empty()
                },
                MessageView::NewViewMessage(n) => seq![to_self(ConsensusCommandView::AcceptNewView(n))],
                MessageView::CheckPointMessage(c) => seq![to_self(ConsensusCommandView::AcceptCheckpoint(c))],
                MessageView::ClientRequestMessage(r) => if old(self).state.in_view_change {
                    Seq::empty()
                } else if old(self).id != old(self).state.leader_of(old(self).state.view) {
                    seq![to_self(ConsensusCommandView::MisdirectedClientRequest(r))]
                } else {
                    seq![to_self(ConsensusCommandView::InitPrePrepare(r))]
                },
                _ => Seq::<ActionView>::empty(),
            });
        }
        acts
    }

    pub fn misdirected_client_request(&mut self, request: ClientRequest) -> (acts: Vec<Action>)
        requires
            old(self).wf(),
            misdirected_client_request_requires(*old(self), request@),
        ensures
            final(self).wf(),
            misdirected_client_request_post(*old(self), *final(self), request@, actions_view(acts@)),
    {
        // If we get a client request but are not the leader
        // we forward the request to the leader. We started a timer
        // which, if it expires and the request is still outstanding,
        // will initiate the view change protocol
        let mut acts: Vec<Action> = Vec::new();
        if self.state.message_bank.sent_requests.contains_key(&(self.state.view, request.clone())) {
            assert(actions_view(acts@) =~= Seq::<ActionView>::empty());
            return acts;
        }
        if self.config.is_equivocator {
            // if we are leader and are malicious, we don't wont to forward
            // any client requests after the system kicks us out.
            assert(actions_view(acts@) =~= Seq::<ActionView>::empty());
            return acts;
        }
        self.state.message_bank.sent_requests.insert((self.state.view, request.clone()), ());
        let leader = self.state.current_leader();
        let leader_addr = self.config.peer_addr(leader).unwrap().clone();
        acts.push(act_send(leader_addr, Message::ClientRequestMessage(request.clone())));
        let newly_added = self.view_changer.add_to_wait_set(&request);
        if newly_added {
            acts.push(Action::WatchRequest(request));
        }
        proof {
            assert(actions_view(acts@) =~= seq![
                send(
                    old(self).config@.peer_addrs[old(self).state.leader_of(old(self).state.view)],
                    MessageView::ClientRequestMessage(request@),
                ),
            ] + if old(self).view_changer.wait_set@.dom().contains(request@) {
                Seq::<ActionView>::empty()
            } else {
                seq![ActionView::WatchRequest(request@)]
            });
        }
        acts
    }

    pub fn init_pre_prepare(&mut self, request: ClientRequest) -> (acts: Vec<Action>)
        requires
            old(self).wf(),
            old(self).state.seq_num < usize::MAX,
        ensures
            final(self).wf(),
            init_pre_prepare_post(*old(self), *final(self), request@, actions_view(acts@)),
    {
        // Here we are primary and received a client request which we deemed valid
        // so we broadcast a Pre_prepare Message to the network and assign
        // the next sequence number to this request
        if self.state.message_bank.sent_requests.contains_key(&(self.state.view, request.clone())) {
            let acts: Vec<Action> = Vec::new();
            assert(actions_view(acts@) =~= Seq::<ActionView>::empty());
            return acts;
        }
        self.state.seq_num = self.state.seq_num + 1;
        if self.config.is_equivocator {
            // this node is an equivocator, so we send
            // different messages to different nodes
            return self.equivocate_pre_prepare(&request);
        }
        let pre_prepare = PrePrepare::new(self.id, self.state.view, self.state.seq_num, &request);
        let view_seq_num_pair = (pre_prepare.view, pre_prepare.seq_num);
        self.view_changer.add_to_sent_pre_prepares(&view_seq_num_pair);
        let mut acts: Vec<Action> = Vec::new();
        acts.push(Action::WatchPrePrepare(view_seq_num_pair));
        self.state.message_bank.sent_requests.insert((self.state.view, request), ());
        acts.push(act_broadcast(Message::PrePrepareMessage(pre_prepare)));
        proof {
            assert(actions_view(acts@) =~= seq![
                ActionView::WatchPrePrepare(view_seq_num_pair),
                broadcast(MessageView::PrePrepareMessage(pre_prepare_for(old(self).id, old(self).state.view, view_seq_num_pair.1, request@))),
            ]);
        }
        acts
    }

    /// The pre-prepares of an equivocating leader: the request with value 42
    /// to even-numbered nodes, the request as it is to odd-numbered ones.
    fn equivocate_pre_prepare(&self, request: &ClientRequest) -> (acts: Vec<Action>)
        requires
            self.wf(),
        ensures
            actions_view(acts@) == equivocation_actions(*self, request@, self.state.seq_num),
    {
        // mutate the given request
        let mut d_request = request.clone();
        d_request.value = Some(42);
        let pre_prepare = PrePrepare::new(self.id, self.state.view, self.state.seq_num, request);
        let d_pre_prepare = PrePrepare::new(self.id, self.state.view, self.state.seq_num, &d_request);
        proof {
            assert(d_request@ == equivocated_request(request@));
        }
        let mut acts: Vec<Action> = Vec::new();
        let mut i: usize = 0;
        let n = self.config.peer_addrs.entries.len();
        // even-numbered peers get the altered request, the others the
        // request as it is.
        while i < n
            invariant
                n == self.config.peer_addrs.entries@.len(),
                i <= n,
                acts@.len() == i,
                pre_prepare@ == pre_prepare_for(self.id, self.state.view, self.state.seq_num, request@),
                d_pre_prepare@ == pre_prepare_for(self.id, self.state.view, self.state.seq_num, equivocated_request(request@)),
                forall|j: int| 0 <= j < i ==> (#[trigger] acts@[j])@ == equivocation_actions(*self, request@, self.state.seq_num)[j],
            decreases n - i,
        {
            let peer_id = self.config.peer_addrs.entries[i].0;
            let peer_addr = self.config.peer_addrs.entries[i].1.clone();
            if peer_id % 2 == 0 {
                acts.push(act_send(peer_addr, Message::PrePrepareMessage(d_pre_prepare.clone())));
            } else {
                acts.push(act_send(peer_addr, Message::PrePrepareMessage(pre_prepare.clone())));
            }
            i = i + 1;
        }
        assert(actions_view(acts@) =~= equivocation_actions(*self, request@, self.state.seq_num));
        acts
    }

    pub fn rebroadcast_pre_prepare(&mut self, view_seq_num_pair: (usize, usize)) -> (acts: Vec<Action>)
        requires
            old(self).wf(),
        ensures
            final(self).wf(),
            rebroadcast_pre_prepare_post(*old(self), *final(self), view_seq_num_pair, actions_view(acts@)),
    {
        // we are the leader and a pre-prepare message we sent has not been execute for some time
        // so we rebroadcast the message to the networks
        let mut acts: Vec<Action> = Vec::new();
        match self.state.message_bank.accepted_pre_prepare_requests.get(&view_seq_num_pair) {
            None => {
                acts.push(Action::Stop);
            },
            Some(pre_prepare) => {
                let pre_prepare = pre_prepare.clone();
                let pair = (pre_prepare.view, pre_prepare.seq_num);
                acts.push(act_broadcast(Message::PrePrepareMessage(pre_prepare)));
                acts.push(Action::WatchPrePrepare(pair));
            },
        }
        proof {
            if old(self).state.message_bank.accepted_pre_prepare_requests@.dom().contains(view_seq_num_pair) {
                let pp = old(self).state.message_bank.accepted_pre_prepare_requests@[view_seq_num_pair];
                assert(actions_view(acts@) =~= seq![
                    broadcast(MessageView::PrePrepareMessage(pp)),
                    ActionView::WatchPrePrepare((pp.view, pp.seq_num)),
                ]);
            } else {
                assert(actions_view(acts@) =~= seq![ActionView::Stop]);
            }
        }
        acts
    }

    pub fn enter_commit(&mut self, prepare: Prepare) -> (acts: Vec<Action>)
        requires
            old(self).wf(),
        ensures
            final(self).wf(),
            enter_commit_post(*old(self), *final(self), prepare@, actions_view(acts@)),
    {
        let commit = Commit::new(self.id, prepare.view, prepare.seq_num, prepare.digest);
        let mut acts: Vec<Action> = Vec::new();
        acts.push(act_broadcast(Message::CommitMessage(commit)));
        assert(actions_view(acts@) =~= seq![
            broadcast(
                MessageView::CommitMessage(
                    VoteView { id: old(self).id, view: prepare@.view, seq_num: prepare@.seq_num, digest: prepare@.digest, signature: 0 },
                ),
            ),
        ]);
        acts
    }
}

impl Consensus {
    pub fn accept_pre_prepare(&mut self, pre_prepare: PrePrepare) -> (acts: Vec<Action>)
        requires
            old(self).wf(),
        ensures
            final(self).wf(),
            accept_pre_prepare_post(*old(self), *final(self), pre_prepare@, actions_view(acts@)),
    {
        // We received a PrePrepare message from the network, and we see no violations
        // So we will broadcast a corresponding prepare message and begin to count votes
        let ghost pp = pre_prepare@;
        let request = pre_prepare.client_request.clone();
        let prepare = Prepare::new(self.id, pre_prepare.view, pre_prepare.seq_num, &request);
        let mut acts: Vec<Action> = Vec::new();
        acts.push(act_broadcast(Message::PrepareMessage(prepare)));
        let ghost head = actions_view(acts@);
        assert(head =~= seq![
            broadcast(
                MessageView::PrepareMessage(
                    VoteView {
                        id: old(self).id,
                        view: pp.view,
                        seq_num: pp.seq_num,
                        digest: request_digest(pp.client_request),
                        signature: 0,
                    },
                ),
            ),
        ]);

        // we may already have a got a prepare message which we did not accept because
        // we did not receive this pre-prepare message message yet
        let n = self.state.message_bank.outstanding_prepares.entries.len();
        let mut i: usize = 0;
        assert(self.state.message_bank.outstanding_prepares.keys().take(0) =~= Seq::<VoteView>::empty());
        while i < n
            invariant
                n == self.state.message_bank.outstanding_prepares.entries@.len(),
                i <= n,
                pre_prepare@ == pp,
                *self == *old(self),
                actions_view(acts@) == head + prepares_matching(
                    self.state.message_bank.outstanding_prepares.keys().take(i as int),
                    pp,
                ),
            decreases n - i,
        {
            let ghost keys = self.state.message_bank.outstanding_prepares.keys();
            let e_prepare = &self.state.message_bank.outstanding_prepares.entries[i].0;
            assert(keys.take(i + 1).drop_last() =~= keys.take(i as int));
            assert(keys.take(i + 1).last() == e_prepare@);
            let ghost prev = acts@;
            if e_prepare.corresponds_to(&pre_prepare) {
                acts.push(act_to_self(ConsensusCommand::AcceptPrepare(e_prepare.clone())));
                assert(actions_view(acts@) =~= actions_view(prev).push(to_self(ConsensusCommandView::AcceptPrepare(e_prepare@))));
            }
            proof {
                let t = keys.take(i + 1);
                assert(prepares_matching(t, pp) == prepares_matching(t.drop_last(), pp) + if vote_matches_pre_prepare(t.last(), pp) {
                    seq![to_self(ConsensusCommandView::AcceptPrepare(t.last()))]
                } else {
                    Seq::<ActionView>::empty()
                });
            }
            i = i + 1;
            proof {
                assert(actions_view(acts@) =~= head + prepares_matching(keys.take(i as int), pp));
            }
        }
        assert(self.state.message_bank.outstanding_prepares.keys().take(n as int)
            =~= self.state.message_bank.outstanding_prepares.keys());

        // at this point, we need to trigger a timer, and if the timer expires
        // and the request is still outstanding, then we need to trigger a view change
        // as this is evidence that the system has stopped making progress
        let newly_added = self.view_changer.add_to_wait_set(&request);
        if newly_added {
            acts.push(Action::WatchRequest(request));
        }
        self.state.message_bank.accepted_pre_prepare_requests.insert(
            (pre_prepare.view, pre_prepare.seq_num),
            pre_prepare,
        );
        proof {
            let tail = if old(self).view_changer.wait_set@.dom().contains(pp.client_request) {
                Seq::<ActionView>::empty()
            } else {
                seq![ActionView::WatchRequest(pp.client_request)]
            };
            assert(actions_view(acts@) =~= head + prepares_matching(
                old(self).state.message_bank.outstanding_prepares.keys(),
                pp,
            ) + tail);
        }
        acts
    }

    pub fn accept_prepare(&mut self, prepare: Prepare) -> (acts: Vec<Action>)
        requires
            old(self).wf(),
        ensures
            final(self).wf(),
            accept_prepare_post(*old(self), *final(self), prepare@, actions_view(acts@)),
    {
        // We saw a prepare message from the network that we deemed was valid
        // so we increment the vote count, and if we have enough prepare votes
        // then we move to the commit phases
        let ghost p = prepare@;

        // we are now accepting this prepare, so if it is our outstanding set, then
        // we may remove it
        self.state.message_bank.outstanding_prepares.remove(&prepare);

        let mut acts: Vec<Action> = Vec::new();
        let key = (prepare.view, prepare.seq_num);
        match self.state.prepare_votes.find(&key) {
            Some(idx) => {
                let mut curr_vote_set = self.state.prepare_votes.replace_value(idx, VecMap::new());
                proof {
                    assert(old(self).state.prepare_votes.entries@[idx as int].1.wf());
                }
                let ghost mid = self.state.prepare_votes;
                curr_vote_set.insert(prepare.id, prepare.clone());
                let count = curr_vote_set.len();
                let ghost inner = curr_vote_set;
                self.state.prepare_votes.replace_value(idx, curr_vote_set);
                proof {
                    old(self).state.prepare_votes.lemma_inserted_twice(
                        mid, self.state.prepare_votes, key, mid.entries@[idx as int].1@, inner@);
                    assert(old(self).state.prepare_votes.index_of(key) == idx);
                    assert(self.state.prepare_votes.entries@[idx as int].1 == inner);
                    inner.lemma_len();
                }
                if count as u128 > 2 * (self.config.num_faulty as u128) {
                    // at this point, we have enough prepare votes to move into the commit phase.
                    acts.push(act_to_self(ConsensusCommand::EnterCommit(prepare.clone())));
                    assert(actions_view(acts@) =~= seq![to_self(ConsensusCommandView::EnterCommit(p))]);
                } else {
                    assert(actions_view(acts@) =~= Seq::<ActionView>::empty());
                }
            },
            None => {
                // first time we got a prepare message for this view and sequence number
                let mut new_vote_set: VecMap<NodeId, Prepare> = VecMap::new();
                new_vote_set.insert(prepare.id, prepare.clone());
                proof {
                    assert(new_vote_set.keys() =~= seq![p.id]);
                    assert(new_vote_set.values() =~= seq![p]);
                    assert(new_vote_set@ =~= map![p.id => p]);
                }
                self.state.prepare_votes.insert(key, new_vote_set);
                if self.config.num_faulty == 0 {
                    // a single vote is already a quorum when no node may be faulty
                    acts.push(act_to_self(ConsensusCommand::EnterCommit(prepare.clone())));
                    assert(actions_view(acts@) =~= seq![to_self(ConsensusCommandView::EnterCommit(p))]);
                } else {
                    assert(actions_view(acts@) =~= Seq::<ActionView>::empty());
                }
            },
        }
        proof {
            assert forall|i: int| 0 <= i < self.state.prepare_votes.entries@.len() implies (
            #[trigger] self.state.prepare_votes.entries@[i]).1.wf() by {
                if i < old(self).state.prepare_votes.entries@.len() {
                    assert(old(self).state.prepare_votes.entries@[i].1.wf());
                }
            }
        }
        let ghost head = actions_view(acts@);

        // we may already have a got a commit message which we did not accept because
        // we did not receive this prepare message message yet
        let n = self.state.message_bank.outstanding_commits.entries.len();
        let mut i: usize = 0;
        assert(self.state.message_bank.outstanding_commits.keys().take(0) =~= Seq::<VoteView>::empty());
        let ghost mid = *self;
        while i < n
            invariant
                n == self.state.message_bank.outstanding_commits.entries@.len(),
                i <= n,
                prepare@ == p,
                *self == mid,
                actions_view(acts@) == head + commits_matching(
                    self.state.message_bank.outstanding_commits.keys().take(i as int),
                    p,
                ),
            decreases n - i,
        {
            let ghost keys = self.state.message_bank.outstanding_commits.keys();
            let e_commit = &self.state.message_bank.outstanding_commits.entries[i].0;
            assert(keys.take(i + 1).drop_last() =~= keys.take(i as int));
            assert(keys.take(i + 1).last() == e_commit@);
            let ghost prev = acts@;
            if e_commit.corresponds_to(&prepare) {
                acts.push(act_to_self(ConsensusCommand::AcceptCommit(e_commit.clone())));
                assert(actions_view(acts@) =~= actions_view(prev).push(to_self(ConsensusCommandView::AcceptCommit(e_commit@))));
            }
            proof {
                let t = keys.take(i + 1);
                assert(commits_matching(t, p) == commits_matching(t.drop_last(), p) + if vote_matches_vote(t.last(), p) {
                    seq![to_self(ConsensusCommandView::AcceptCommit(t.last()))]
                } else {
                    Seq::<ActionView>::empty()
                });
            }
            i = i + 1;
            proof {
                assert(actions_view(acts@) =~= head + commits_matching(keys.take(i as int), p));
            }
        }
        assert(self.state.message_bank.outstanding_commits.keys().take(n as int)
            =~= self.state.message_bank.outstanding_commits.keys());
        proof {
            let votes = old(self).state.prepare_votes;
            if votes@.dom().contains(key) {
                let inner = self.state.prepare_votes.entries@[votes.index_of(key)].1;
                inner.lemma_len();
            }
        }
        acts
    }

    pub fn accept_commit(&mut self, commit: Commit) -> (acts: Vec<Action>)
        requires
            old(self).wf(),
        ensures
            final(self).wf(),
            accept_commit_post(*old(self), *final(self), commit@, actions_view(acts@)),
    {
        // We received a Commit Message for a request that we deemed valid
        // so we increment the vote count
        let ghost c = commit@;
        self.state.message_bank.outstanding_commits.remove(&commit);

        let mut acts: Vec<Action> = Vec::new();
        let key = (commit.view, commit.seq_num);
        match self.state.commit_votes.find(&key) {
            Some(idx) => {
                let mut curr_vote_set = self.state.commit_votes.replace_value(idx, VecMap::new());
                proof {
                    assert(old(self).state.commit_votes.entries@[idx as int].1.wf());
                }
                let ghost mid = self.state.commit_votes;
                curr_vote_set.insert(commit.id, ());
                let count = curr_vote_set.len();
                let ghost inner = curr_vote_set;
                self.state.commit_votes.replace_value(idx, curr_vote_set);
                proof {
                    old(self).state.commit_votes.lemma_inserted_twice(
                        mid, self.state.commit_votes, key, mid.entries@[idx as int].1@, inner@);
                }
                if count as u128 > 2 * (self.config.num_faulty as u128) {
                    // At this point, we have enough commit votes to commit the message
                    acts.push(act_to_self(ConsensusCommand::ApplyCommit(commit)));
                }
            },
            None => {
                // first time we got a commit message for this view and sequence number
                let mut new_vote_set: VecMap<NodeId, ()> = VecMap::new();
                new_vote_set.insert(commit.id, ());
                proof {
                    assert(new_vote_set.keys() =~= seq![c.id]);
                    assert(new_vote_set@ =~= map![c.id => ()]);
                }
                self.state.commit_votes.insert(key, new_vote_set);
                if self.config.num_faulty == 0 {
                    // a single vote is already a quorum when no node may be faulty
                    acts.push(act_to_self(ConsensusCommand::ApplyCommit(commit)));
                }
            },
        }
        proof {
            assert forall|i: int| 0 <= i < self.state.commit_votes.entries@.len() implies (
            #[trigger] self.state.commit_votes.entries@[i]).1.wf() by {
                if i < old(self).state.commit_votes.entries@.len() {
                    assert(old(self).state.commit_votes.entries@[i].1.wf());
                }
            }
            let votes = old(self).state.commit_votes;
            if votes@.dom().contains(key) {
                let inner = self.state.commit_votes.entries@[votes.index_of(key)].1;
                inner.lemma_len();
                if exceeds_two_f(inner@.len(), old(self).config.num_faulty) {
                    assert(actions_view(acts@) =~= seq![to_self(ConsensusCommandView::ApplyCommit(c))]);
                } else {
                    assert(actions_view(acts@) =~= Seq::<ActionView>::empty());
                }
            } else if exceeds_two_f(1, old(self).config.num_faulty) {
                assert(actions_view(acts@) =~= seq![to_self(ConsensusCommandView::ApplyCommit(c))]);
            } else {
                assert(actions_view(acts@) =~= Seq::<ActionView>::empty());
            }
        }
        acts
    }
}

impl Consensus {
    /// Applies `client_request`, committed by `commit`, if it is the next one
    /// in order; buffers the commit if requests before it are missing.
    pub fn apply_commit(&mut self, commit: &Commit, client_request: &ClientRequest) -> (acts: Vec<Action>)
        requires
            old(self).wf(),
        ensures
            final(self).wf(),
            apply_commit_post(*old(self), *final(self), commit@, client_request@, actions_view(acts@)),
    {
        // remove this request from the view changer so that we don't trigger a view change
        self.view_changer.remove_from_wait_set(client_request);
        self.view_changer.remove_from_sent_pre_prepares(&(commit.view, commit.seq_num));

        let mut acts: Vec<Action> = Vec::new();
        if commit.seq_num > 0 && commit.seq_num - 1 == self.state.last_seq_num_committed {
            let (ret, new_applies) = self.state.apply_commit(client_request, commit);
            proof {
                lemma_consecutive_run_unique(
                    self.state.message_bank.accepted_commits_not_applied@,
                    commit.seq_num + 1,
                    views_of(new_applies@),
                );
            }
            let mut i: usize = 0;
            while i < new_applies.len()
                invariant
                    i <= new_applies@.len(),
                    acts@.len() == i,
                    forall|j: int| 0 <= j < i ==> (#[trigger] acts@[j])@ == to_self(
                        ConsensusCommandView::ApplyCommit(new_applies@[j]@),
                    ),
                decreases new_applies@.len() - i,
            {
                acts.push(act_to_self(ConsensusCommand::ApplyCommit(new_applies[i].clone())));
                i = i + 1;
            }
            let ghost head = actions_view(acts@);
            assert(head =~= apply_actions(views_of(new_applies@)));

            // build the client response and send to client
            let res_val = match ret {
                Some(v) => v,
                None => None,
            };
            let res_success = true;
            let client_response = ClientResponse::new(
                self.id,
                client_request.time_stamp,
                client_request.key.clone(),
                res_val,
                res_success,
            );
            acts.push(act_send(
                client_request.respond_addr.clone(),
                Message::ClientResponseMessage(client_response),
            ));
            proof {
                assert(actions_view(acts@) =~= head + seq![
                    send(
                        client_request@.respond_addr,
                        MessageView::ClientResponseMessage(
                            ClientResponseView {
                                id: old(self).id,
                                time_stamp: client_request@.time_stamp,
                                key: client_request@.key,
                                value: response_value(apply_result(old(self).state.store@, client_request@)),
                                success: true,
                                signature: 0,
                            },
                        ),
                    ),
                ]);
            }
        } else if commit.seq_num > self.state.last_seq_num_committed {
            //the sequence number for this commit is too large, so we do not apply it yet
            self.state.message_bank.accepted_commits_not_applied.insert(commit.seq_num, commit.clone());
            assert(actions_view(acts@) =~= Seq::<ActionView>::empty());
        } else {
            assert(actions_view(acts@) =~= Seq::<ActionView>::empty());
        }
        acts
    }

    /// Broadcasts a checkpoint of the current state.
    pub fn init_checkpoint(&self) -> (acts: Vec<Action>)
        requires
            self.wf(),
        ensures
            actions_view(acts@) == seq![checkpoint_action(*self)],
    {
        let checkpoint = CheckPoint::new(
            self.id,
            self.state.last_seq_num_committed,
            self.state.view,
            self.state.digest(),
            crate::messages::clone_pairs(&self.state.store.entries),
        );
        let mut acts: Vec<Action> = Vec::new();
        acts.push(act_broadcast(Message::CheckPointMessage(checkpoint)));
        assert(actions_view(acts@) =~= seq![checkpoint_action(*self)]);
        acts
    }

    /// We now have permission to apply the client request of `commit`.
    pub fn apply_accepted_commit(&mut self, commit: Commit) -> (acts: Vec<Action>)
        requires
            old(self).wf(),
            apply_accepted_commit_requires(*old(self), commit@),
        ensures
            final(self).wf(),
            apply_accepted_commit_post(*old(self), *final(self), commit@, actions_view(acts@)),
    {
        let client_request = match self.state.message_bank.accepted_pre_prepare_requests.get(
            &(commit.view, commit.seq_num),
        ) {
            None => {
                let acts: Vec<Action> = Vec::new();
                assert(actions_view(acts@) =~= Seq::<ActionView>::empty());
                return acts;
            },
            Some(pre_prepare) => pre_prepare.client_request.clone(),
        };
        let mut acts = self.apply_commit(&commit, &client_request);
        // The request we just committed was enough to now trigger a checkpoint
        if self.state.last_seq_num_committed % self.config.checkpoint_frequency == 0
            && self.state.last_seq_num_committed > self.state.last_stable_seq_num {
            let ghost prefix = actions_view(acts@);
            let mut cp = self.init_checkpoint();
            let ghost cpv = actions_view(cp@);
            assert(cpv.len() == cp@.len());
            assert(cpv[0] == cp@[0]@);
            acts.append(&mut cp);
            assert(actions_view(acts@) =~= prefix + cpv);
            assert(actions_view(acts@).drop_last() =~= prefix);
        }
        acts
    }
}

impl Consensus {
    pub fn accept_checkpoint(&mut self, checkpoint: CheckPoint) -> (acts: Vec<Action>)
        requires
            old(self).wf(),
        ensures
            final(self).wf(),
            accept_checkpoint_post(*old(self), *final(self), checkpoint@, actions_view(acts@)),
    {
        let ghost cp = checkpoint@;
        let key = (checkpoint.committed_seq_num, checkpoint.state_digest.clone());
        self.state.message_bank.checkpoint_messages.insert(
            (checkpoint.committed_seq_num, checkpoint.state_digest.clone()),
            checkpoint.clone(),
        );
        self.state.checkpoints_current_round.insert(checkpoint.id, checkpoint.clone());
        let ghost votes = old(self).state.checkpoint_votes;
        let ghost inner: VecMap<NodeId, ()>;

        // increment vote count for checkpoint with given committed seq num and given digest
        let idx: usize = match self.state.checkpoint_votes.find(&key) {
            Some(idx) => {
                let mut curr_vote_set = self.state.checkpoint_votes.replace_value(idx, VecMap::new());
                let ghost mid = self.state.checkpoint_votes;
                proof {
                    assert(votes.entries@[idx as int].1.wf());
                }
                curr_vote_set.insert(checkpoint.id, ());
                proof {
                    inner = curr_vote_set;
                }
                self.state.checkpoint_votes.replace_value(idx, curr_vote_set);
                proof {
                    votes.lemma_inserted_twice(mid, self.state.checkpoint_votes, key@, mid.entries@[idx as int].1@, inner@);
                    assert(votes.index_of(key@) == idx);
                    assert(self.state.checkpoint_votes.entries@[idx as int].1 == inner);
                    votes.lemma_views();
                    self.state.checkpoint_votes.lemma_views();
                    assert(self.state.checkpoint_votes.keys()[idx as int] == votes.keys()[idx as int]);
                    self.state.checkpoint_votes.lemma_entry_in_map(idx as int);
                    assert forall|i: int| 0 <= i < self.state.checkpoint_votes.entries@.len() implies (
                    #[trigger] self.state.checkpoint_votes.entries@[i]).1.wf() by {
                        if i != idx {
                            assert(self.state.checkpoint_votes.entries@[i] == votes.entries@[i]);
                        }
                    }
                    assert forall|i: int, id: NodeId|
                        0 <= i < self.state.checkpoint_votes.entries@.len()
                            && (#[trigger] self.state.checkpoint_votes.entries@[i]).1@.dom().contains(id)
                            implies #[trigger] self.state.checkpoints_current_round@.dom().contains(id) by {
                        if i != idx {
                            assert(self.state.checkpoint_votes.entries@[i] == votes.entries@[i]);
                            assert(old(self).state.checkpoints_current_round@.dom().contains(id));
                        } else if id != cp.id {
                            assert(votes.entries@[i].1@.dom().contains(id));
                            assert(old(self).state.checkpoints_current_round@.dom().contains(id));
                        }
                    }
                }
                idx
            },
            None => {
                // first time we got a checkpoint message for this sequence number and digest
                let mut new_vote_set: VecMap<NodeId, ()> = VecMap::new();
                new_vote_set.insert(checkpoint.id, ());
                proof {
                    assert(new_vote_set.keys() =~= seq![cp.id]);
                    assert(new_vote_set@ =~= map![cp.id => ()]);
                    inner = new_vote_set;
                }
                let n = self.state.checkpoint_votes.entries.len();
                self.state.checkpoint_votes.insert(key, new_vote_set);
                proof {
                    let nv = self.state.checkpoint_votes;
                    assert(nv.keys()[n as int] == key@);
                    assert(nv.entries@[n as int].1 == inner);
                    nv.lemma_entry_in_map(n as int);
                    assert forall|i: int| 0 <= i < nv.entries@.len() implies (#[trigger] nv.entries@[i]).1.wf() by {
                        if i < votes.entries@.len() {
                            assert(votes.entries@[i].1.wf());
                        }
                    }
                    assert forall|i: int, id: NodeId|
                        0 <= i < nv.entries@.len() && (#[trigger] nv.entries@[i]).1@.dom().contains(id)
                            implies #[trigger] self.state.checkpoints_current_round@.dom().contains(id) by {
                        if i < votes.entries@.len() {
                            assert(nv.entries@[i] == votes.entries@[i]);
                            assert(old(self).state.checkpoints_current_round@.dom().contains(id));
                        } else {
                            assert(id == cp.id);
                        }
                    }
                }
                n
            },
        };
        proof {
            inner.lemma_len();
            assert(inner@ == checkpoint_voters_after(votes, key@, cp));
            assert(inner.keys() == checkpoint_voter_order(votes, key@, cp));
            assert(self.state.checkpoint_votes.index_of(key@) == idx);
        }
        let count = self.state.checkpoint_votes.entries[idx].1.entries.len();
        let mut acts: Vec<Action> = Vec::new();
        if count as u128 > 2 * (self.config.num_faulty as u128) {
            // At this point, we have enough checkpoint messages to update our state
            let ghost before_stable = *self;
            if self.state.last_seq_num_committed < checkpoint.committed_seq_num {
                // if this node is still behind after applying all commits in the checkpoint,
                // we fast-forward its state, but note that no client responses are sent.
                self.state.store = store_from_pairs(&checkpoint.state);
                self.state.last_seq_num_committed = checkpoint.committed_seq_num;
            }

            // make a new proof of this checkpoint for subsequent view change messages
            self.state.update_checkpoint_meta(&checkpoint.committed_seq_num, &checkpoint.state_digest);

            // update the stable seq num
            self.state.last_stable_seq_num = checkpoint.committed_seq_num;

            // we update the view to the view in which the checkpoint was taken
            let new_view = checkpoint.view;
            if new_view != self.state.view {
                // if we update to a new view,
                // then we need to reset any view change processes
                // which we initiated
                self.state.in_view_change = false;
                self.view_changer.reset();
            }
            self.state.view = new_view;

            let commits = self.state.get_next_consecutive_commits();
            proof {
                lemma_consecutive_run_unique(
                    self.state.message_bank.accepted_commits_not_applied@,
                    self.state.last_seq_num_committed + 1,
                    views_of(commits@),
                );
            }
            let mut i: usize = 0;
            while i < commits.len()
                invariant
                    i <= commits@.len(),
                    acts@.len() == i,
                    forall|j: int| 0 <= j < i ==> (#[trigger] acts@[j])@ == to_self(
                        ConsensusCommandView::ApplyCommit(commits@[j]@),
                    ),
                decreases commits@.len() - i,
            {
                acts.push(act_to_self(ConsensusCommand::ApplyCommit(commits[i].clone())));
                i = i + 1;
            }
            assert(actions_view(acts@) =~= apply_actions(views_of(commits@)));

            // remove all of the messages pertaining to requests with seq_num < last_stable_seq_num
            self.state.garbage_collect();
            proof {
                let voters = checkpoint_voter_order(votes, key@, cp);
                assert(before_stable.state.checkpoints_current_round@ == old(self).state.checkpoints_current_round@.insert(cp.id, cp));
                assert(views_of(self.state.last_checkpoint_proof@).len() == voters.len());
                assert forall|j: int| 0 <= j < voters.len() implies #[trigger] views_of(self.state.last_checkpoint_proof@)[j]
                    == before_stable.state.checkpoints_current_round@[voters[j]] by {
                    assert(voters[j] == inner.entries@[j].0);
                }
                assert(views_of(self.state.last_checkpoint_proof@) =~= voters.map_values(
                    |id: NodeId| before_stable.state.checkpoints_current_round@[id],
                ));
            }
        } else {
            assert(actions_view(acts@) =~= Seq::<ActionView>::empty());
        }
        acts
    }
}

/// The prepares of a vote set, in the order they were accepted.
fn vote_values(votes: &VecMap<NodeId, Prepare>) -> (r: Vec<Prepare>)
    ensures
        views_of(r@) == votes.values(),
{
    let mut r: Vec<Prepare> = Vec::new();
    let mut i: usize = 0;
    while i < votes.entries.len()
        invariant
            i <= votes.entries@.len(),
            r@.len() == i,
            forall|j: int| 0 <= j < i ==> (#[trigger] r@[j])@ == votes.entries@[j].1@,
        decreases votes.entries@.len() - i,
    {
        r.push(votes.entries[i].1.clone());
        i = i + 1;
    }
    proof {
        votes.lemma_views();
    }
    assert(views_of(r@) =~= votes.values());
    r
}

impl Consensus {
    /// The certificates of the requests prepared after the last stable
    /// checkpoint.
    fn collect_prepared_certificates(&self) -> (r: Vec<PreparedCertificate>)
        requires
            self.wf(),
        ensures
            views_of(r@) == prepared_certificates(self.state, self.config.num_faulty),
    {
        let ghost s = self.state;
        let ghost f = self.config.num_faulty;
        let accepted = &self.state.message_bank.accepted_pre_prepare_requests;
        let mut certs: VecMap<usize, PreparedCertificate> = VecMap::new();
        let mut i: usize = 0;
        assert(certs.model() =~= certificates_upto(s, f, 0));
        while i < accepted.entries.len()
            invariant
                i <= accepted.entries@.len(),
                *accepted == s.message_bank.accepted_pre_prepare_requests,
                s == self.state,
                f == self.config.num_faulty,
                self.wf(),
                certs.wf(),
                certs.model() == certificates_upto(s, f, i as int),
            decreases accepted.entries@.len() - i,
        {
            let key = accepted.entries[i].0;
            let ghost pp = accepted.entries@[i as int].1@;
            if key.1 > self.state.last_stable_seq_num {
                if let Some(idx) = self.state.prepare_votes.find(&key) {
                    let vote_set = &self.state.prepare_votes.entries[idx].1;
                    proof {
                        self.state.prepare_votes.lemma_entry_in_map(idx as int);
                        assert(vote_set.wf());
                        vote_set.lemma_len();
                    }
                    if vote_set.len() as u128 > 2 * (self.config.num_faulty as u128) {
                        let cert = PreparedCertificate {
                            seq_num: key.1,
                            pre_prepare: accepted.entries[i].1.clone(),
                            prepares: vote_values(vote_set),
                        };
                        let ghost pre = certs;
                        certs.insert(key.1, cert);
                        proof {
                            pre.lemma_inserted_model(certs, key.1, cert@);
                            assert(certificate_at(s, f, key, pp) == Some(cert@));
                        }
                    }
                }
            }
            i = i + 1;
        }
        let mut r: Vec<PreparedCertificate> = Vec::new();
        let mut j: usize = 0;
        while j < certs.entries.len()
            invariant
                j <= certs.entries@.len(),
                r@.len() == j,
                forall|a: int| 0 <= a < j ==> (#[trigger] r@[a])@ == certs.entries@[a].1@,
            decreases certs.entries@.len() - j,
        {
            r.push(certs.entries[j].1.clone());
            j = j + 1;
        }
        proof {
            certs.lemma_views();
        }
        assert(views_of(r@) =~= certs.model().map_values(|e: (usize, PreparedCertificateView)| e.1));
        r
    }

    pub fn init_view_change(&mut self, _request: ClientRequest) -> (acts: Vec<Action>)
        requires
            old(self).wf(),
            old(self).state.view < usize::MAX,
            !old(self).state.in_view_change ==> old(self).config.num_nodes > 0,
        ensures
            final(self).wf(),
            init_view_change_post(*old(self), *final(self), actions_view(acts@)),
    {
        let mut acts: Vec<Action> = Vec::new();
        if self.state.in_view_change || self.state.current_leader() == self.id {
            // we are already in a view change state or we are currently the leader
            assert(actions_view(acts@) =~= Seq::<ActionView>::empty());
            return acts;
        }
        self.state.in_view_change = true;

        // find all pre-prepares that we have more than 2f votes for that occurred after the last stable seq-num
        let subsequent_prepares = self.collect_prepared_certificates();
        let view_change = ViewChange::new(
            self.id,
            self.state.view + 1,
            self.state.last_stable_seq_num,
            clone_checkpoints(&self.state.last_checkpoint_proof),
            subsequent_prepares,
        );
        acts.push(act_broadcast(Message::ViewChangeMessage(view_change)));
        proof {
            assert(prepared_certificates(self.state, self.config.num_faulty) == prepared_certificates(old(self).state, old(self).config.num_faulty)) by {
                assert(certificates_upto(self.state, self.config.num_faulty, old(self).state.message_bank.accepted_pre_prepare_requests.entries@.len() as int)
                    == certificates_upto(old(self).state, old(self).config.num_faulty, old(self).state.message_bank.accepted_pre_prepare_requests.entries@.len() as int)) by {
                    lemma_certificates_ignore_view_change_flag(old(self).state, self.state, old(self).config.num_faulty, old(self).state.message_bank.accepted_pre_prepare_requests.entries@.len() as int);
                }
            }
            assert(actions_view(acts@) =~= seq![
                broadcast(
                    MessageView::ViewChangeMessage(
                        ViewChangeView {
                            id: old(self).id,
                            new_view: (old(self).state.view + 1) as usize,
                            last_stable_seq_num: old(self).state.last_stable_seq_num,
                            checkpoint_proof: views_of(old(self).state.last_checkpoint_proof@),
                            subsequent_prepares: prepared_certificates(old(self).state, old(self).config.num_faulty),
                            signature: 0,
                        },
                    ),
                ),
            ]);
        }
        acts
    }
}

/// Certificates do not depend on whether a view change is under way.
proof fn lemma_certificates_ignore_view_change_flag(a: State, b: State, f: usize, n: int)
    requires
        b == (State { in_view_change: b.in_view_change, ..a }),
    ensures
        certificates_upto(a, f, n) == certificates_upto(b, f, n),
    decreases n,
{
    if n > 0 {
        lemma_certificates_ignore_view_change_flag(a, b, f, n - 1);
    }
}

/// The pre-prepare of the first certificate for sequence number `sq`.
fn find_certificate(certs: &Vec<PreparedCertificate>, sq: usize) -> (r: Option<&PrePrepare>)
    ensures
        r is Some == certificate_for(views_of(certs@), sq) is Some,
        r matches Some(pp) ==> pp@ == certificate_for(views_of(certs@), sq)->0,
{
    let ghost all = views_of(certs@);
    let mut i: usize = 0;
    assert(all.subrange(0, all.len() as int) =~= all);
    while i < certs.len()
        invariant
            i <= certs@.len(),
            all == views_of(certs@),
            certificate_for(all, sq) == certificate_for(all.subrange(i as int, all.len() as int), sq),
        decreases certs@.len() - i,
    {
        let ghost rest = all.subrange(i as int, all.len() as int);
        assert(rest[0] == certs@[i as int]@);
        if certs[i].seq_num == sq {
            return Some(&certs[i].pre_prepare);
        }
        assert(rest.subrange(1, rest.len() as int) =~= all.subrange(i + 1, all.len() as int));
        i = i + 1;
    }
    None
}

impl Consensus {
    /// The new leader's pre-prepares for the sequence numbers after `latest`
    /// up to `max_seq`.
    fn new_view_proposals(&self, msgs: &Vec<ViewChange>, latest: usize, max_seq: usize) -> (r: Vec<PrePrepare>)
        requires
            self.state.view < usize::MAX,
        ensures
            views_of(r@) == new_view_pre_prepares(self.id, self.state.view, views_of(msgs@), latest, max_seq),
    {
        let ghost mv = views_of(msgs@);
        let mut outstanding = Vec::<PrePrepare>::new();
        let count: usize = if max_seq > latest { max_seq - latest } else { 0 };
        let mut k: usize = 0;
        while k < count
            invariant
                self.state.view < usize::MAX,
                mv == views_of(msgs@),
                count == (if max_seq > latest { (max_seq - latest) as nat } else { 0 }),
                k <= count,
                outstanding@.len() == k,
                forall|j: int| 0 <= j < k ==> (#[trigger] outstanding@[j])@ == new_view_pre_prepares(
                    self.id,
                    self.state.view,
                    mv,
                    latest,
                    max_seq,
                )[j],
            decreases count - k,
        {
            let seq_num = latest + 1 + k;
            let mut best: Option<&PrePrepare> = None;
            let mut i: usize = 0;
            assert(mv.take(0) =~= Seq::<ViewChangeView>::empty());
            while i < msgs.len()
                invariant
                    i <= msgs@.len(),
                    mv == views_of(msgs@),
                    best is Some == highest_pre_prepare(mv.take(i as int), seq_num) is Some,
                    best matches Some(b) ==> b@ == highest_pre_prepare(mv.take(i as int), seq_num)->0,
                decreases msgs@.len() - i,
            {
                assert(mv.take(i + 1).drop_last() =~= mv.take(i as int));
                assert(mv.take(i + 1).last() == msgs@[i as int]@);
                if let Some(pre_prepare) = find_certificate(&msgs[i].subsequent_prepares, seq_num) {
                    let better = match best {
                        None => true,
                        Some(b) => pre_prepare.view > b.view,
                    };
                    if better {
                        best = Some(pre_prepare);
                    }
                }
                i = i + 1;
            }
            assert(mv.take(msgs@.len() as int) =~= mv);
            let pre_prepare = match best {
                Some(b) => PrePrepare::new(self.id, self.state.view + 1, seq_num, &b.client_request),
                // create a pre-prepare with a no-op request
                // to fill in gaps in sequence number
                None => PrePrepare::new(self.id, self.state.view + 1, seq_num, &ClientRequest::no_op()),
            };
            outstanding.push(pre_prepare);
            k = k + 1;
        }
        assert(views_of(outstanding@) =~= new_view_pre_prepares(self.id, self.state.view, mv, latest, max_seq));
        outstanding
    }

    pub fn accept_view_change(&mut self, view_change: ViewChange) -> (acts: Vec<Action>)
        requires
            old(self).wf(),
            old(self).state.view < usize::MAX,
        ensures
            final(self).wf(),
            accept_view_change_post(*old(self), *final(self), view_change@, actions_view(acts@)),
    {
        // update the vote count
        // if there are enough votes (and we are the primary for the next view)
        // then we broadcast a corresponding new_view message
        let new_view_number = view_change.new_view;
        self.state.view_change_votes.insert(view_change.id, view_change);
        let mut acts: Vec<Action> = Vec::new();
        if (self.state.view_change_votes.len() as u128) <= 2 * (self.config.num_faulty as u128) {
            assert(actions_view(acts@) =~= Seq::<ActionView>::empty());
            return acts;
        }
        // broadcast a new view message
        let votes = &self.state.view_change_votes;
        let mut view_change_messages = Vec::<ViewChange>::new();
        let mut i: usize = 0;
        while i < votes.entries.len()
            invariant
                i <= votes.entries@.len(),
                view_change_messages@.len() == i,
                forall|j: int| 0 <= j < i ==> (#[trigger] view_change_messages@[j])@ == votes.entries@[j].1@,
            decreases votes.entries@.len() - i,
        {
            view_change_messages.push(votes.entries[i].1.clone());
            i = i + 1;
        }
        proof {
            votes.lemma_views();
        }
        let ghost msgs = views_of(view_change_messages@);
        assert(msgs =~= votes.values());

        let mut latest_stable_seq_num = self.state.last_stable_seq_num;
        let mut max_seq_num = self.state.last_stable_seq_num;
        let ghost init = self.state.last_stable_seq_num;
        let mut i: usize = 0;
        assert(msgs.take(0) =~= Seq::<ViewChangeView>::empty());
        while i < view_change_messages.len()
            invariant
                i <= view_change_messages@.len(),
                msgs == views_of(view_change_messages@),
                latest_stable_seq_num == max_stable(msgs.take(i as int), init),
                max_seq_num == max_prepared_seq(msgs.take(i as int), init),
            decreases view_change_messages@.len() - i,
        {
            assert(msgs.take(i + 1).drop_last() =~= msgs.take(i as int));
            assert(msgs.take(i + 1).last() == view_change_messages@[i as int]@);
            let vc = &view_change_messages[i];
            if vc.last_stable_seq_num > latest_stable_seq_num {
                latest_stable_seq_num = vc.last_stable_seq_num;
            }
            let ghost certs = views_of(vc.subsequent_prepares@);
            let ghost start = max_seq_num;
            let mut j: usize = 0;
            assert(certs.take(0) =~= Seq::<PreparedCertificateView>::empty());
            while j < vc.subsequent_prepares.len()
                invariant
                    j <= vc.subsequent_prepares@.len(),
                    certs == views_of(vc.subsequent_prepares@),
                    max_seq_num == max_certificate_seq(certs.take(j as int), start),
                decreases vc.subsequent_prepares@.len() - j,
            {
                assert(certs.take(j + 1).drop_last() =~= certs.take(j as int));
                assert(certs.take(j + 1).last() == vc.subsequent_prepares@[j as int]@);
                if vc.subsequent_prepares[j].seq_num > max_seq_num {
                    max_seq_num = vc.subsequent_prepares[j].seq_num;
                }
                j = j + 1;
            }
            assert(certs.take(vc.subsequent_prepares@.len() as int) =~= certs);
            i = i + 1;
        }
        assert(msgs.take(view_change_messages@.len() as int) =~= msgs);

        self.state.seq_num = latest_stable_seq_num;
        let outstanding_pre_prepares = self.new_view_proposals(
            &view_change_messages,
            latest_stable_seq_num,
            max_seq_num,
        );
        let new_view = NewView::new(self.id, new_view_number, view_change_messages, outstanding_pre_prepares);
        acts.push(act_broadcast(Message::NewViewMessage(new_view)));
        proof {
            self.state.view_change_votes.lemma_len();
            assert(actions_view(acts@) =~= seq![
                broadcast(
                    MessageView::NewViewMessage(
                        NewViewView {
                            id: old(self).id,
                            view: new_view_number,
                            view_change_messages: msgs,
                            outstanding_pre_prepares: new_view_pre_prepares(
                                old(self).id,
                                old(self).state.view,
                                msgs,
                                latest_stable_seq_num,
                                max_seq_num,
                            ),
                            signature: 0,
                        },
                    ),
                ),
            ]);
        }
        acts
    }
}

impl Consensus {
    pub fn accept_new_view(&mut self, new_view: NewView) -> (acts: Vec<Action>)
        requires
            old(self).wf(),
            old(self).config.num_nodes > 0,
        ensures
            final(self).wf(),
            accept_new_view_post(*old(self), *final(self), new_view@, actions_view(acts@)),
    {
        self.state.in_view_change = false;
        self.state.checkpoint_votes.clear();
        self.state.view = new_view.view;

        let mut acts: Vec<Action> = Vec::new();
        if self.state.current_leader() == self.id {
            // if we are the leader in this new view,
            // then we need outstanding pre-prepares in this new view
            let ghost requests = views_of(new_view.outstanding_pre_prepares@).map_values(
                |pp: PrePrepareView| pp.client_request,
            );
            let mut i: usize = 0;
            while i < new_view.outstanding_pre_prepares.len()
                invariant
                    i <= new_view.outstanding_pre_prepares@.len(),
                    requests.len() == new_view.outstanding_pre_prepares@.len(),
                    requests == views_of(new_view.outstanding_pre_prepares@).map_values(
                        |pp: PrePrepareView| pp.client_request,
                    ),
                    acts@.len() == i,
                    forall|j: int| 0 <= j < i ==> (#[trigger] acts@[j])@ == to_self(
                        ConsensusCommandView::InitPrePrepare(requests[j]),
                    ),
                decreases new_view.outstanding_pre_prepares@.len() - i,
            {
                assert(requests[i as int] == new_view.outstanding_pre_prepares@[i as int].client_request@);
                acts.push(act_to_self(ConsensusCommand::InitPrePrepare(
                    new_view.outstanding_pre_prepares[i].client_request.clone(),
                )));
                i = i + 1;
            }
            let ghost head = actions_view(acts@);
            assert(head =~= propose_actions(requests));
            let waiting = self.view_changer.waiting_requests();
            let mut k: usize = 0;
            while k < waiting.len()
                invariant
                    k <= waiting@.len(),
                    acts@.len() == head.len() + k,
                    forall|j: int| 0 <= j < head.len() ==> (#[trigger] acts@[j])@ == head[j],
                    forall|j: int| 0 <= j < k ==> (#[trigger] acts@[head.len() + j])@ == to_self(
                        ConsensusCommandView::InitPrePrepare(waiting@[j]@),
                    ),
                decreases waiting@.len() - k,
            {
                acts.push(act_to_self(ConsensusCommand::InitPrePrepare(waiting[k].clone())));
                k = k + 1;
            }
            let ghost tail = propose_actions(views_of(waiting@));
            assert forall|j: int| 0 <= j < acts@.len() implies #[trigger] actions_view(acts@)[j] == (head + tail)[j] by {
                if j >= head.len() {
                    let t = j - head.len();
                    assert(acts@[head.len() + t] == acts@[j]);
                    assert(tail[t] == to_self(ConsensusCommandView::InitPrePrepare(waiting@[t]@)));
                }
            }
            assert(actions_view(acts@) =~= head + tail);
        } else {
            assert(actions_view(acts@) =~= Seq::<ActionView>::empty());
        }
        self.view_changer.reset();
        acts
    }

    /// Handles one command: the body of the engine's loop.
    pub fn handle(&mut self, cmd: ConsensusCommand) -> (acts: Vec<Action>)
        requires
            old(self).wf(),
            handle_requires(*old(self), cmd@),
        ensures
            final(self).wf(),
            handle_post(*old(self), *final(self), cmd@, actions_view(acts@)),
    {
        match cmd {
            ConsensusCommand::ProcessMessage(message) => self.process_message(message),
            ConsensusCommand::MisdirectedClientRequest(request) => self.misdirected_client_request(request),
            ConsensusCommand::InitPrePrepare(request) => self.init_pre_prepare(request),
            ConsensusCommand::RebroadcastPrePrepare(pair) => self.rebroadcast_pre_prepare(pair),
            ConsensusCommand::AcceptPrePrepare(pre_prepare) => self.accept_pre_prepare(pre_prepare),
            ConsensusCommand::AcceptPrepare(prepare) => self.accept_prepare(prepare),
            ConsensusCommand::EnterCommit(prepare) => self.enter_commit(prepare),
            ConsensusCommand::AcceptCommit(commit) => self.accept_commit(commit),
            ConsensusCommand::InitViewChange(request) => self.init_view_change(request),
            ConsensusCommand::AcceptViewChange(view_change) => self.accept_view_change(view_change),
            ConsensusCommand::AcceptNewView(new_view) => self.accept_new_view(new_view),
            ConsensusCommand::ApplyCommit(commit) => self.apply_accepted_commit(commit),
            ConsensusCommand::AcceptCheckpoint(checkpoint) => self.accept_checkpoint(checkpoint),
        }
    }
}

} // verus!

//! Properties of runs of the consensus engine: sequences of states, each the
//! one before it after `Consensus::handle` took a command.
use vstd::prelude::*;

use crate::consensus::{
    broadcast, handle_post, handle_requires, ActionView, Consensus,
};
use crate::messages::{
    pre_prepare_for, ClientRequestView, ConsensusCommandView, MessageView, PrePrepareView,
};
use crate::state::{apply_to_store, store_of_pairs};

verus! {

/// Step `k` of a run: `states[k + 1]` is `states[k]` after handling `cmds[k]`,
/// which produced `acts[k]`.
pub open spec fn run_step(
    states: Seq<Consensus>,
    cmds: Seq<ConsensusCommandView>,
    acts: Seq<Seq<ActionView>>,
    k: int,
) -> bool {
    handle_post(states[k], states[k + 1], cmds[k], acts[k])
}

/// A run of the engine.
pub open spec fn is_run(states: Seq<Consensus>, cmds: Seq<ConsensusCommandView>, acts: Seq<Seq<ActionView>>) -> bool {
    &&& states.len() == cmds.len() + 1
    &&& acts.len() == cmds.len()
    &&& forall|k: int| 0 <= k < cmds.len() ==> #[trigger] run_step(states, cmds, acts, k)
}

/// Was every command of the run one that the engine may be handed?
pub open spec fn run_allowed(states: Seq<Consensus>, cmds: Seq<ConsensusCommandView>) -> bool {
    forall|k: int| 0 <= k < cmds.len() ==> handle_requires(#[trigger] states[k], cmds[k])
}

// ---------------------------------------------------------------------------
// Pre-prepares within a view
// ---------------------------------------------------------------------------

/// Does handling `cmd` pre-prepare a request that was not yet sent in the
/// current view?
pub open spec fn issues_pre_prepare(old: Consensus, cmd: ConsensusCommandView) -> bool {
    &&& cmd is InitPrePrepare
    &&& !old.state.message_bank.sent_requests@.dom().contains((old.state.view, cmd->InitPrePrepare_0))
}

/// The pre-prepare that handling `InitPrePrepare(r)` issues.
pub open spec fn issued_pre_prepare(old: Consensus, cmd: ConsensusCommandView) -> PrePrepareView {
    pre_prepare_for(old.id, old.state.view, (old.state.seq_num + 1) as usize, cmd->InitPrePrepare_0)
}

/// One step that keeps the view and accepts no view change keeps the
/// configuration, never lowers the sequence number, and forgets no request
/// sent.
proof fn lemma_step_within_view(old: Consensus, new: Consensus, cmd: ConsensusCommandView, acts: Seq<ActionView>)
    requires
        handle_post(old, new, cmd, acts),
        handle_requires(old, cmd),
        !(cmd is AcceptViewChange),
        new.state.view == old.state.view,
    ensures
        new.config == old.config,
        new.id == old.id,
        new.state.seq_num >= old.state.seq_num,
        forall|x: (usize, ClientRequestView)| #[trigger] old.state.message_bank.sent_requests@.dom().contains(x)
            ==> new.state.message_bank.sent_requests@.dom().contains(x),
{
    match cmd {
        ConsensusCommandView::ProcessMessage(m) => {
            match m {
                MessageView::PrepareMessage(p) => {}
                MessageView::CommitMessage(c) => {}
                _ => {}
            }
        }
        ConsensusCommandView::InitPrePrepare(r) => {
            if !old.state.message_bank.sent_requests@.dom().contains((old.state.view, r)) && !old.config.is_equivocator {
                assert(new.state.message_bank.sent_requests@ == old.state.message_bank.sent_requests@.insert((old.state.view, r), ()));
            }
        }
        ConsensusCommandView::MisdirectedClientRequest(r) => {
            if !old.state.message_bank.sent_requests@.dom().contains((old.state.view, r)) && !old.config.is_equivocator {
                assert(new.state.message_bank.sent_requests@ == old.state.message_bank.sent_requests@.insert((old.state.view, r), ()));
            }
        }
        _ => {}
    }
}

/// Along a run that keeps its view and accepts no view change, the
/// configuration stays, the sequence number never goes down, and no request
/// sent is forgotten.
proof fn lemma_run_within_view(
    states: Seq<Consensus>,
    cmds: Seq<ConsensusCommandView>,
    acts: Seq<Seq<ActionView>>,
    a: int,
    b: int,
)
    requires
        is_run(states, cmds, acts),
        run_allowed(states, cmds),
        forall|k: int| 0 <= k < cmds.len() ==> !(#[trigger] cmds[k] is AcceptViewChange),
        forall|k: int| 0 <= k < states.len() ==> (#[trigger] states[k]).state.view == states[0].state.view,
        0 <= a <= b < states.len(),
    ensures
        states[b].config == states[a].config,
        states[b].id == states[a].id,
        states[b].state.seq_num >= states[a].state.seq_num,
        forall|x: (usize, ClientRequestView)| #[trigger] states[a].state.message_bank.sent_requests@.dom().contains(x)
            ==> states[b].state.message_bank.sent_requests@.dom().contains(x),
    decreases b - a,
{
    if a < b {
        lemma_run_within_view(states, cmds, acts, a, b - 1);
        assert(run_step(states, cmds, acts, b - 1));
        assert(handle_requires(states[b - 1], cmds[b - 1]));
        assert(!(cmds[b - 1] is AcceptViewChange));
        assert(states[b].state.view == states[0].state.view && states[b - 1].state.view == states[0].state.view);
        lemma_step_within_view(states[b - 1], states[b], cmds[b - 1], acts[b - 1]);
    }
}

/// Within one view, as long as no view change is accepted, an honest leader
/// pre-prepares each new request at the sequence number after its current
/// one, which becomes its sequence number; later pre-prepares carry strictly
/// larger sequence numbers, and no request is pre-prepared twice. (A
/// rebroadcast re-sends an earlier pre-prepare and issues none.)
pub proof fn lemma_pre_prepares_increase_within_view(
    states: Seq<Consensus>,
    cmds: Seq<ConsensusCommandView>,
    acts: Seq<Seq<ActionView>>,
    i: int,
    j: int,
)
    requires
        is_run(states, cmds, acts),
        run_allowed(states, cmds),
        forall|k: int| 0 <= k < cmds.len() ==> !(#[trigger] cmds[k] is AcceptViewChange),
        forall|k: int| 0 <= k < states.len() ==> (#[trigger] states[k]).state.view == states[0].state.view,
        !states[0].config.is_equivocator,
        0 <= i < j < cmds.len(),
        issues_pre_prepare(states[i], cmds[i]),
        issues_pre_prepare(states[j], cmds[j]),
    ensures
        acts[i] == seq![
            ActionView::WatchPrePrepare((states[0].state.view, issued_pre_prepare(states[i], cmds[i]).seq_num)),
            broadcast(MessageView::PrePrepareMessage(issued_pre_prepare(states[i], cmds[i]))),
        ],
        states[i + 1].state.seq_num == issued_pre_prepare(states[i], cmds[i]).seq_num,
        issued_pre_prepare(states[i], cmds[i]).seq_num == states[i].state.seq_num + 1,
        issued_pre_prepare(states[i], cmds[i]).seq_num < issued_pre_prepare(states[j], cmds[j]).seq_num,
        issued_pre_prepare(states[i], cmds[i]).client_request != issued_pre_prepare(states[j], cmds[j]).client_request,
{
    lemma_run_within_view(states, cmds, acts, 0, i);
    lemma_run_within_view(states, cmds, acts, 0, j);
    lemma_run_within_view(states, cmds, acts, i + 1, j);
    assert(run_step(states, cmds, acts, i));
    assert(run_step(states, cmds, acts, j));
    assert(handle_requires(states[i], cmds[i]));
    assert(handle_requires(states[j], cmds[j]));
    let r = cmds[i]->InitPrePrepare_0;
    let view = states[0].state.view;
    assert(states[i].state.view == view && states[i + 1].state.view == view && states[j].state.view == view);
    assert(states[i + 1].state.message_bank.sent_requests@ == states[i].state.message_bank.sent_requests@.insert((view, r), ()));
    assert(states[i + 1].state.message_bank.sent_requests@.dom().contains((view, r)));
    assert(states[j].state.message_bank.sent_requests@.dom().contains((view, r)));
}

// ---------------------------------------------------------------------------
// Applying committed requests
// ---------------------------------------------------------------------------

/// Does step `cmd` apply the next request in order: a commit, at the sequence
/// number after the last one applied, of a pre-prepare the replica accepted?
pub open spec fn applies_next(old: Consensus, cmd: ConsensusCommandView) -> bool {
    &&& cmd is ApplyCommit
    &&& cmd->ApplyCommit_0.seq_num == old.state.last_seq_num_committed + 1
    &&& old.state.message_bank.accepted_pre_prepare_requests@.dom().contains(
        (cmd->ApplyCommit_0.view, cmd->ApplyCommit_0.seq_num),
    )
}

/// In one step the sequence number of the last applied request never goes
/// down. It goes up either by applying the next request in order, one
/// sequence number at a time, with the store updated by that request, or by
/// fast-forwarding to a stable checkpoint ahead of the replica, with the store
/// taken from the checkpoint. When it stays, the store stays.
pub proof fn lemma_commits_advance_in_order(old: Consensus, new: Consensus, cmd: ConsensusCommandView, acts: Seq<ActionView>)
    requires
        handle_post(old, new, cmd, acts),
    ensures
        new.state.last_seq_num_committed >= old.state.last_seq_num_committed,
        applies_next(old, cmd) ==> {
            let c = cmd->ApplyCommit_0;
            let r = old.state.message_bank.accepted_pre_prepare_requests@[(c.view, c.seq_num)].client_request;
            &&& new.state.last_seq_num_committed == c.seq_num
            &&& new.state.store@ == apply_to_store(old.state.store@, r)
        },
        new.state.last_seq_num_committed != old.state.last_seq_num_committed ==> applies_next(old, cmd) || (
        cmd matches ConsensusCommandView::AcceptCheckpoint(cp) && new.state.last_seq_num_committed
            == cp.committed_seq_num && cp.committed_seq_num > old.state.last_seq_num_committed
            && new.state.store@ == store_of_pairs(cp.state)),
        new.state.last_seq_num_committed == old.state.last_seq_num_committed ==> new.state.store@ == old.state.store@,
{
}

/// Along a run, the sequence number of the last applied request never goes
/// down, and the requests applied one at a time are applied in strictly
/// increasing order of sequence number, so none is applied twice.
pub proof fn lemma_run_commits_in_order(
    states: Seq<Consensus>,
    cmds: Seq<ConsensusCommandView>,
    acts: Seq<Seq<ActionView>>,
    i: int,
    j: int,
)
    requires
        is_run(states, cmds, acts),
        0 <= i <= j < states.len(),
    ensures
        states[j].state.last_seq_num_committed >= states[i].state.last_seq_num_committed,
        j < cmds.len() && i < j && applies_next(states[i], cmds[i]) && applies_next(states[j], cmds[j])
            ==> cmds[i]->ApplyCommit_0.seq_num < cmds[j]->ApplyCommit_0.seq_num,
    decreases j - i,
{
    if i < j {
        lemma_run_commits_in_order(states, cmds, acts, i, j - 1);
        assert(run_step(states, cmds, acts, j - 1));
        lemma_commits_advance_in_order(states[j - 1], states[j], cmds[j - 1], acts[j - 1]);
        if j < cmds.len() && applies_next(states[i], cmds[i]) && applies_next(states[j], cmds[j]) {
            assert(run_step(states, cmds, acts, i));
            lemma_commits_advance_in_order(states[i], states[i + 1], cmds[i], acts[i]);
            lemma_run_commits_in_order(states, cmds, acts, i + 1, j);
        }
    }
}

} // verus!

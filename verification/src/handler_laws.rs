//! What the view change, new view, checkpoint and commit handlers are for,
//! stated directly over their inputs and results.
use vstd::prelude::*;

use crate::consensus::{
    accept_checkpoint_post, accept_new_view_post, accept_view_change_post, apply_accepted_commit_post,
    apply_actions, apply_commit_post, certificate_at, certificates_upto, init_view_change_post, max_stable,
    new_view_pre_prepares, to_self, ActionView, Consensus,
};
use crate::vec_map::model_insert;
use crate::messages::{
    ClientRequestView, ConsensusCommandView, MessageView, NodeCommandView, PreparedCertificateView,
    VoteView, ViewChangeView,
};
use crate::state::State;

verus! {

// ---------------------------------------------------------------------------
// Starting a view change
// ---------------------------------------------------------------------------

/// Does `c` meet what a reported certificate needs: a sequence number after
/// the last stable checkpoint, and more than `2f` prepares?
pub open spec fn certificate_backed(s: State, f: usize, c: PreparedCertificateView) -> bool {
    &&& c.seq_num > s.last_stable_seq_num
    &&& c.prepares.len() > 2 * f
}

proof fn lemma_certificate_at_backed(s: State, f: usize, key: (usize, usize), pp: crate::messages::PrePrepareView)
    requires
        s.wf(),
        certificate_at(s, f, key, pp) is Some,
    ensures
        certificate_backed(s, f, certificate_at(s, f, key, pp)->0),
        certificate_at(s, f, key, pp)->0.seq_num == key.1,
{
    let votes = s.prepare_votes;
    let i = votes.index_of(key);
    assert(votes.has(key));
    assert(votes.key_at(i) == key);
    votes.lemma_entry_in_map(i);
    let inner = votes.entries@[i].1;
    assert(inner.wf());
    inner.lemma_len();
    inner.lemma_views();
    assert(inner@ == votes@[key]);
}

proof fn lemma_model_insert_elements<KM, VV>(m: Seq<(KM, VV)>, k: KM, v: VV)
    ensures
        forall|i: int| 0 <= i < model_insert(m, k, v).len() ==> #[trigger] model_insert(m, k, v)[i] == (k, v)
            || (i < m.len() && model_insert(m, k, v)[i] == m[i]),
{
}

proof fn lemma_certificates_upto_backed(s: State, f: usize, n: int)
    requires
        s.wf(),
        n <= s.message_bank.accepted_pre_prepare_requests.entries@.len(),
    ensures
        forall|i: int| 0 <= i < certificates_upto(s, f, n).len()
            ==> certificate_backed(s, f, #[trigger] certificates_upto(s, f, n)[i].1),
    decreases n,
{
    if n > 0 {
        lemma_certificates_upto_backed(s, f, n - 1);
        let prev = certificates_upto(s, f, n - 1);
        let e = s.message_bank.accepted_pre_prepare_requests.entries@[n - 1];
        match certificate_at(s, f, e.0, e.1@) {
            Some(c) => {
                lemma_certificate_at_backed(s, f, e.0, e.1@);
                lemma_model_insert_elements(prev, c.seq_num, c);
                let cur = certificates_upto(s, f, n);
                assert(cur == model_insert(prev, c.seq_num, c));
                assert forall|i: int| 0 <= i < cur.len() implies certificate_backed(s, f, #[trigger] cur[i].1) by {
                    if cur[i] != (c.seq_num, c) {
                        assert(cur[i] == prev[i]);
                    }
                }
            },
            None => {},
        }
    }
}

/// A replica that starts a view change broadcasts one view-change message for
/// the next view, from its last stable checkpoint, and every certificate in it
/// reports a request after that checkpoint that gathered more than `2f`
/// prepares: a request with fewer is never reported as prepared.
pub proof fn lemma_view_change_reports_only_prepared(old: Consensus, new: Consensus, acts: Seq<ActionView>)
    requires
        old.wf(),
        init_view_change_post(old, new, acts),
        !old.state.in_view_change,
        old.state.leader_of(old.state.view) != old.id,
        old.state.view < usize::MAX,
    ensures
        new.state.in_view_change,
        acts.len() == 1,
        acts[0] matches ActionView::ToNode(NodeCommandView::Broadcast { message: MessageView::ViewChangeMessage(vc) })
            && vc.id == old.id && vc.new_view == old.state.view + 1
            && vc.last_stable_seq_num == old.state.last_stable_seq_num
            && forall|i: int| 0 <= i < vc.subsequent_prepares.len() ==> {
                let c = #[trigger] vc.subsequent_prepares[i];
                &&& c.seq_num > old.state.last_stable_seq_num
                &&& c.prepares.len() > 2 * old.config.num_faulty
            },
{
    let s = old.state;
    let f = old.config.num_faulty;
    let n = s.message_bank.accepted_pre_prepare_requests.entries@.len() as int;
    lemma_certificates_upto_backed(s, f, n);
    let certs = crate::consensus::prepared_certificates(s, f);
    assert forall|i: int| 0 <= i < certs.len() implies (#[trigger] certs[i]).seq_num > s.last_stable_seq_num
        && certs[i].prepares.len() > 2 * f by {
        assert(certs[i] == certificates_upto(s, f, n)[i].1);
        assert(certificate_backed(s, f, certificates_upto(s, f, n)[i].1));
    }
}

// ---------------------------------------------------------------------------
// Building the new view
// ---------------------------------------------------------------------------

proof fn lemma_max_stable_bounds(msgs: Seq<ViewChangeView>, init: usize)
    ensures
        max_stable(msgs, init) >= init,
        forall|i: int| 0 <= i < msgs.len() ==> max_stable(msgs, init) >= (#[trigger] msgs[i]).last_stable_seq_num,
        max_stable(msgs, init) == init || exists|i: int| 0 <= i < msgs.len()
            && max_stable(msgs, init) == (#[trigger] msgs[i]).last_stable_seq_num,
    decreases msgs.len(),
{
    if msgs.len() > 0 {
        let prefix = msgs.drop_last();
        lemma_max_stable_bounds(prefix, init);
        assert forall|i: int| 0 <= i < msgs.len() implies max_stable(msgs, init) >= (#[trigger] msgs[i]).last_stable_seq_num by {
            if i < prefix.len() {
                assert(msgs[i] == prefix[i]);
            }
        }
        if max_stable(msgs, init) != init {
            if max_stable(msgs, init) == msgs.last().last_stable_seq_num {
                assert(max_stable(msgs, init) == msgs[msgs.len() - 1].last_stable_seq_num);
            } else {
                let i = choose|i: int| 0 <= i < prefix.len() && max_stable(prefix, init) == (#[trigger] prefix[i]).last_stable_seq_num;
                assert(msgs[i] == prefix[i]);
            }
        }
    }
}

/// Once more than `2f` view changes are counted, the new leader restarts its
/// sequence numbers from the latest stable checkpoint among its own and those
/// the view changes report: at least each of them, and one of them. Every
/// pre-prepare of the new-view message it broadcasts comes after all of them.
pub proof fn lemma_new_view_starts_after_latest_checkpoint(
    old: Consensus,
    new: Consensus,
    vc: ViewChangeView,
    acts: Seq<ActionView>,
)
    requires
        accept_view_change_post(old, new, vc, acts),
        new.state.view_change_votes@.len() > 2 * old.config.num_faulty,
    ensures
        ({
            let msgs = new.state.view_change_votes.values();
            let latest = new.state.seq_num;
            &&& latest >= old.state.last_stable_seq_num
            &&& forall|i: int| 0 <= i < msgs.len() ==> latest >= (#[trigger] msgs[i]).last_stable_seq_num
            &&& latest == old.state.last_stable_seq_num || exists|i: int| 0 <= i < msgs.len()
                && latest == (#[trigger] msgs[i]).last_stable_seq_num
            &&& acts.len() == 1
            &&& acts[0] matches ActionView::ToNode(NodeCommandView::Broadcast { message: MessageView::NewViewMessage(nv) })
                && nv.view_change_messages == msgs
                && forall|k: int, i: int| 0 <= k < nv.outstanding_pre_prepares.len() && 0 <= i < msgs.len()
                    ==> #[trigger] nv.outstanding_pre_prepares[k].seq_num > (#[trigger] msgs[i]).last_stable_seq_num
        }),
{
    let msgs = new.state.view_change_votes.values();
    lemma_max_stable_bounds(msgs, old.state.last_stable_seq_num);
    let latest = max_stable(msgs, old.state.last_stable_seq_num);
    let max_seq = crate::consensus::max_prepared_seq(msgs, old.state.last_stable_seq_num);
    let pps = new_view_pre_prepares(old.id, old.state.view, msgs, latest, max_seq);
    assert forall|k: int, i: int| 0 <= k < pps.len() && 0 <= i < msgs.len()
        implies #[trigger] pps[k].seq_num > (#[trigger] msgs[i]).last_stable_seq_num by {
        assert(latest + 1 + k <= max_seq);
        assert(pps[k].seq_num == latest + 1 + k);
    }
}

// ---------------------------------------------------------------------------
// Entering a new view
// ---------------------------------------------------------------------------

/// A replica entering a view ends its view change and moves to that view. If
/// it leads the view, it proposes every pre-prepare of the new-view message
/// and every request it was waiting on; otherwise it proposes nothing.
pub proof fn lemma_new_leader_proposes_waiting_requests(
    old: Consensus,
    new: Consensus,
    nv: crate::messages::NewViewView,
    acts: Seq<ActionView>,
)
    requires
        accept_new_view_post(old, new, nv, acts),
    ensures
        new.state.view == nv.view,
        !new.state.in_view_change,
        old.state.leader_of(nv.view) != old.id ==> acts.len() == 0,
        old.state.leader_of(nv.view) == old.id ==> acts.len() == nv.outstanding_pre_prepares.len()
            + old.view_changer.wait_set.entries@.len(),
        old.state.leader_of(nv.view) == old.id ==>
        forall|r: ClientRequestView| #[trigger] old.view_changer.wait_set@.dom().contains(r)
            ==> acts.contains(to_self(ConsensusCommandView::InitPrePrepare(r))),
        old.state.leader_of(nv.view) == old.id ==>
        forall|k: int| 0 <= k < nv.outstanding_pre_prepares.len() ==> acts.contains(
            to_self(ConsensusCommandView::InitPrePrepare(#[trigger] nv.outstanding_pre_prepares[k].client_request)),
        ),
{
    if old.state.leader_of(nv.view) == old.id {
        let head = crate::consensus::propose_actions(
            nv.outstanding_pre_prepares.map_values(|pp: crate::messages::PrePrepareView| pp.client_request),
        );
        let w = old.view_changer.wait_set;
        let tail = crate::consensus::propose_actions(w.keys());
        assert(acts == head + tail);
        w.lemma_views();
        assert forall|r: ClientRequestView| #[trigger] w@.dom().contains(r) implies acts.contains(
            to_self(ConsensusCommandView::InitPrePrepare(r)),
        ) by {
            let j = choose|j: int| 0 <= j < w.entries@.len() && #[trigger] crate::vec_map::entry_key(w.entries@, j) == r;
            w.lemma_views();
            assert(w.keys()[j] == r);
            assert(tail[j] == to_self(ConsensusCommandView::InitPrePrepare(r)));
            assert(acts[head.len() + j] == tail[j]);
        }
        assert forall|k: int| 0 <= k < nv.outstanding_pre_prepares.len() implies acts.contains(
            to_self(ConsensusCommandView::InitPrePrepare(#[trigger] nv.outstanding_pre_prepares[k].client_request)),
        ) by {
            assert(head[k] == to_self(ConsensusCommandView::InitPrePrepare(nv.outstanding_pre_prepares[k].client_request)));
            assert(acts[k] == head[k]);
        }
    }
}

// ---------------------------------------------------------------------------
// Stable checkpoints
// ---------------------------------------------------------------------------

proof fn lemma_consecutive_run_is_consecutive(m: Map<usize, VoteView>, start: int)
    requires
        start >= 0,
    ensures
        ({
            let run = crate::state::consecutive_run(m, start);
            &&& forall|k: int| 0 <= k < run.len() ==> #[trigger] m.dom().contains((start + k) as usize)
                && run[k] == m[(start + k) as usize]
            &&& start + run.len() > usize::MAX || !m.dom().contains((start + run.len()) as usize)
        }),
    decreases usize::MAX + 1 - start,
{
    let run = crate::state::consecutive_run(m, start);
    if start <= usize::MAX && m.dom().contains(start as usize) {
        lemma_consecutive_run_is_consecutive(m, start + 1);
        let rest = crate::state::consecutive_run(m, start + 1);
        assert(run == seq![m[start as usize]] + rest);
        assert forall|k: int| 0 <= k < run.len() implies #[trigger] m.dom().contains((start + k) as usize)
            && run[k] == m[(start + k) as usize] by {
            if k > 0 {
                assert(run[k] == rest[k - 1]);
                assert(m.dom().contains((start + 1 + (k - 1)) as usize));
            }
        }
    }
}

/// When a checkpoint becomes stable, the replica hands back, in order, the
/// buffered commits at the sequence numbers right after its (possibly
/// fast-forwarded) last applied request, up to the first one missing: each of
/// them and nothing else.
pub proof fn lemma_stable_checkpoint_releases_buffered_commits(
    old: Consensus,
    new: Consensus,
    cp: crate::messages::CheckPointView,
    acts: Seq<ActionView>,
)
    requires
        accept_checkpoint_post(old, new, cp, acts),
        ({
            let key = (cp.committed_seq_num, cp.state_digest);
            let votes = old.state.checkpoint_votes@;
            let voters = if votes.dom().contains(key) {
                votes[key].insert(cp.id, ())
            } else {
                map![cp.id => ()]
            };
            voters.len() > 2 * old.config.num_faulty
        }),
    ensures
        ({
            let m = old.state.message_bank.accepted_commits_not_applied@;
            let start = new.state.last_seq_num_committed + 1;
            &&& forall|k: int| 0 <= k < acts.len() ==> #[trigger] m.dom().contains((start + k) as usize)
                && acts[k] == to_self(ConsensusCommandView::ApplyCommit(m[(start + k) as usize]))
            &&& start + acts.len() > usize::MAX || !m.dom().contains((start + acts.len()) as usize)
        }),
{
    let m = old.state.message_bank.accepted_commits_not_applied@;
    let start = new.state.last_seq_num_committed + 1;
    let key = (cp.committed_seq_num, cp.state_digest);
    let votes = old.state.checkpoint_votes;
    assert(crate::consensus::checkpoint_voters_after(votes, key, cp) == (if votes@.dom().contains(key) {
        votes@[key].insert(cp.id, ())
    } else {
        map![cp.id => ()]
    }));
    lemma_consecutive_run_is_consecutive(m, start);
    let run = crate::state::consecutive_run(m, start);
    assert(acts == apply_actions(run));
    assert forall|k: int| 0 <= k < acts.len() implies #[trigger] m.dom().contains((start + k) as usize)
        && acts[k] == to_self(ConsensusCommandView::ApplyCommit(m[(start + k) as usize])) by {
        assert(acts[k] == to_self(ConsensusCommandView::ApplyCommit(run[k])));
    }
}

// ---------------------------------------------------------------------------
// Applying a committed request
// ---------------------------------------------------------------------------

/// Is `a` the broadcast of a checkpoint?
pub open spec fn is_checkpoint_broadcast(a: ActionView) -> bool {
    a matches ActionView::ToNode(NodeCommandView::Broadcast { message: MessageView::CheckPointMessage(_) })
}

proof fn lemma_apply_commit_broadcasts_no_checkpoint(
    old: Consensus,
    new: Consensus,
    c: VoteView,
    r: ClientRequestView,
    acts: Seq<ActionView>,
)
    requires
        apply_commit_post(old, new, c, r, acts),
    ensures
        forall|k: int| 0 <= k < acts.len() ==> !is_checkpoint_broadcast(#[trigger] acts[k]),
{
    if c.seq_num == old.state.last_seq_num_committed + 1 {
        let run = crate::state::consecutive_run(
            new.state.message_bank.accepted_commits_not_applied@,
            c.seq_num + 1,
        );
        let head = apply_actions(run);
        assert forall|k: int| 0 <= k < acts.len() implies !is_checkpoint_broadcast(#[trigger] acts[k]) by {
            if k < head.len() {
                assert(acts[k] == head[k]);
            } else {
                assert(acts[k] == acts[acts.len() - 1]);
            }
        }
    }
}

/// Applying a commit broadcasts a checkpoint exactly when the request applied
/// makes the number of applied requests a multiple of the checkpoint
/// frequency beyond the last stable checkpoint; the checkpoint is then the
/// last action, and it is taken at that request.
pub proof fn lemma_checkpoint_only_every_frequency(old: Consensus, new: Consensus, c: VoteView, acts: Seq<ActionView>)
    requires
        apply_accepted_commit_post(old, new, c, acts),
        old.config.checkpoint_frequency > 0,
    ensures
        forall|k: int| 0 <= k < acts.len() && is_checkpoint_broadcast(#[trigger] acts[k]) ==> {
            &&& k == acts.len() - 1
            &&& new.state.last_seq_num_committed % old.config.checkpoint_frequency == 0
            &&& new.state.last_seq_num_committed > new.state.last_stable_seq_num
            &&& acts[k]->ToNode_0->Broadcast_message->CheckPointMessage_0.committed_seq_num
                == new.state.last_seq_num_committed
        },
        old.state.message_bank.accepted_pre_prepare_requests@.dom().contains((c.view, c.seq_num))
            && new.state.last_seq_num_committed % old.config.checkpoint_frequency == 0
            && new.state.last_seq_num_committed > new.state.last_stable_seq_num
            ==> acts.len() > 0 && is_checkpoint_broadcast(acts.last()),
{
    let key = (c.view, c.seq_num);
    let accepted = old.state.message_bank.accepted_pre_prepare_requests@;
    if accepted.dom().contains(key) {
        let r = accepted[key].client_request;
        if crate::consensus::checkpoint_due(new) {
            lemma_apply_commit_broadcasts_no_checkpoint(old, new, c, r, acts.drop_last());
            assert forall|k: int| 0 <= k < acts.len() && is_checkpoint_broadcast(#[trigger] acts[k]) implies k == acts.len() - 1 by {
                if k < acts.len() - 1 {
                    assert(acts[k] == acts.drop_last()[k]);
                }
            }
        } else {
            lemma_apply_commit_broadcasts_no_checkpoint(old, new, c, r, acts);
            assert(new.config == old.config);
        }
    }
}

} // verus!

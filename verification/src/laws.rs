//! Properties of the protocol that span several operations.
use vstd::prelude::*;

use vstd::set_lib::{lemma_len_subset, lemma_set_intersect_union_lens, range_set_properties, FiniteRange};

use crate::messages::{request_digest, vote_matches_pre_prepare, vote_matches_vote, ClientRequestView, PrePrepareView, VoteView};
use crate::consensus::{
    accept_checkpoint_post, accept_pre_prepare_post, accept_prepare_post, apply_commit_post, certificate_for,
    highest_pre_prepare, max_prepared_seq, max_certificate_seq, max_stable, new_view_pre_prepares,
    proposal_for, checkpoint_voters_after, exceeds_two_f, Consensus,
};
use crate::messages::{pre_prepare_for, CheckPointView, ViewChangeView};
use crate::state::{apply_result, apply_to_store, store_digest, State};
use crate::vec_map::VecMap;
use crate::{NodeId, Value};

verus! {

/// Two replicas whose stores hold the same entries compute the same digest,
/// whatever order their keys were written in.
pub proof fn lemma_equal_stores_equal_digests(a: State, b: State)
    requires
        a.store@ == b.store@,
    ensures
        store_digest(a.store@) == store_digest(b.store@),
{
}

/// A read of a key returns the value that the last write to that key wrote.
pub proof fn lemma_read_after_write(store: Map<Seq<char>, Value>, write: ClientRequestView, read: ClientRequestView)
    requires
        write.value is Some,
        read.value is None,
        read.key == write.key,
    ensures
        apply_result(apply_to_store(store, write), read) == Some(Some(write.value->0)),
{
}

/// A write to one key does not change what a read of another key returns.
pub proof fn lemma_write_leaves_other_keys(
    store: Map<Seq<char>, Value>,
    write: ClientRequestView,
    read: ClientRequestView,
)
    requires
        read.value is None,
        read.key != write.key,
    ensures
        apply_result(apply_to_store(store, write), read) == apply_result(store, read),
{
}

/// A read leaves the store as it is, and answers with the value stored under
/// its key, if any.
pub proof fn lemma_read_leaves_store(store: Map<Seq<char>, Value>, read: ClientRequestView)
    requires
        read.value is None,
    ensures
        apply_to_store(store, read) == store,
        apply_result(store, read) == Some(
            if store.dom().contains(read.key) {
                Some(store[read.key])
            } else {
                None
            },
        ),
{
}

/// In a cluster of at most `3f + 1` nodes, two sets of more than `2f` nodes
/// share more than `f` nodes: at least one node that is not faulty.
pub proof fn lemma_quorums_intersect(a: Set<NodeId>, b: Set<NodeId>, num_nodes: usize, f: usize)
    requires
        num_nodes <= 3 * f + 1,
        forall|id: NodeId| a.contains(id) ==> id < num_nodes,
        forall|id: NodeId| b.contains(id) ==> id < num_nodes,
        a.finite(),
        b.finite(),
        a.len() > 2 * f,
        b.len() > 2 * f,
    ensures
        a.intersect(b).len() > f,
{
    let all = <usize as FiniteRange>::range_set(0, num_nodes);
    range_set_properties::<usize>(0, num_nodes);
    assert((a + b).subset_of(all));
    lemma_len_subset(a + b, all);
    lemma_set_intersect_union_lens(a, b);
}

/// Leadership rotates through the nodes: the leader of the next view is the
/// node after the current leader.
pub proof fn lemma_leader_rotates(s: State)
    requires
        s.config.num_nodes > 0,
        s.view < usize::MAX,
    ensures
        s.leader_of((s.view + 1) as usize) == (s.leader_of(s.view) + 1) % (s.config.num_nodes as int),
        s.leader_of(s.view) < s.config.num_nodes,
{
    let v = s.view as int;
    let n = s.config.num_nodes as int;
    vstd::arithmetic::div_mod::lemma_add_mod_noop(v, 1, n);
    if n > 1 {
        vstd::arithmetic::div_mod::lemma_small_mod(1, n as nat);
    } else {
        assert(n == 1);
    }
    assert((v + 1) % n == (v % n + 1) % n);
}

/// The prepare that a replica sends for a pre-prepare it accepted belongs to
/// that pre-prepare.
pub proof fn lemma_prepare_matches_pre_prepare(id: NodeId, pp: PrePrepareView)
    requires
        pp.digest == request_digest(pp.client_request),
    ensures
        vote_matches_pre_prepare(
            VoteView {
                id,
                view: pp.view,
                seq_num: pp.seq_num,
                digest: request_digest(pp.client_request),
                signature: 0,
            },
            pp,
        ),
{
}

/// The commit that a replica sends after a prepare belongs to that prepare.
pub proof fn lemma_commit_matches_prepare(id: NodeId, p: VoteView)
    ensures
        vote_matches_vote(
            VoteView { id, view: p.view, seq_num: p.seq_num, digest: p.digest, signature: 0 },
            p,
        ),
{
}

/// A replica never holds two accepted pre-prepares with different digests for
/// the same view and sequence number: accepting a pre-prepare that passed the
/// acceptance test keeps the digest on record for its `(view, seq_num)`, and a
/// newly accepted one carries the digest of its request.
pub proof fn lemma_accepted_digest_stable(c: Consensus, next: Consensus, pp: PrePrepareView, acts: Seq<crate::consensus::ActionView>)
    requires
        c.state.accepts_pre_prepare(pp),
        accept_pre_prepare_post(c, next, pp, acts),
    ensures
        next.state.message_bank.accepted_pre_prepare_requests@.dom().contains((pp.view, pp.seq_num)),
        c.state.message_bank.accepted_pre_prepare_requests@.dom().contains((pp.view, pp.seq_num))
            ==> next.state.message_bank.accepted_pre_prepare_requests@[(pp.view, pp.seq_num)].digest
                == c.state.message_bank.accepted_pre_prepare_requests@[(pp.view, pp.seq_num)].digest,
        next.state.message_bank.accepted_pre_prepare_requests@[(pp.view, pp.seq_num)].digest
            == request_digest(pp.client_request),
{
}

/// A node that prepares twice for the same request is counted once.
pub proof fn lemma_prepare_counted_once(c: Consensus, next: Consensus, p: VoteView, acts: Seq<crate::consensus::ActionView>)
    requires
        c.wf(),
        accept_prepare_post(c, next, p, acts),
        c.state.prepare_votes@.dom().contains((p.view, p.seq_num)),
        c.state.prepare_votes@[(p.view, p.seq_num)].dom().contains(p.id),
    ensures
        next.state.prepare_votes@[(p.view, p.seq_num)].len() == c.state.prepare_votes@[(p.view, p.seq_num)].len(),
{
    let key = (p.view, p.seq_num);
    let votes = c.state.prepare_votes;
    let i = votes.index_of(key);
    let inner = votes.entries@[i].1;
    assert(votes.key_at(i) == key);
    assert(inner.wf());
    assert(inner@ == votes@[key]);
    let inner2 = next.state.prepare_votes.entries@[i].1;
    assert(inner2@ == next.state.prepare_votes@[key]);
    assert(inner2@.dom() =~= inner@.dom());
}

/// Once more than `2f` nodes have sent a checkpoint, it is stable: the replica
/// has applied every request up to it, and keeps no message about a request
/// before it.
pub proof fn lemma_stable_checkpoint_applied(
    c: Consensus,
    next: Consensus,
    cp: CheckPointView,
    acts: Seq<crate::consensus::ActionView>,
)
    requires
        accept_checkpoint_post(c, next, cp, acts),
        exceeds_two_f(
            checkpoint_voters_after(c.state.checkpoint_votes, (cp.committed_seq_num, cp.state_digest), cp).len(),
            c.config.num_faulty,
        ),
    ensures
        next.state.last_stable_seq_num == cp.committed_seq_num,
        next.state.last_seq_num_committed >= next.state.last_stable_seq_num,
        next.state.view == cp.view,
        forall|k: (usize, usize)| #[trigger] next.state.message_bank.accepted_pre_prepare_requests@.dom().contains(k)
            ==> k.1 >= cp.committed_seq_num,
        forall|q: usize| #[trigger] next.state.message_bank.accepted_commits_not_applied@.dom().contains(q)
            ==> q >= cp.committed_seq_num,
        forall|q: usize| #[trigger] next.state.message_bank.applied_commits@.dom().contains(q)
            ==> q >= cp.committed_seq_num,
        forall|v: VoteView| #[trigger] next.state.message_bank.outstanding_prepares@.dom().contains(v)
            ==> v.seq_num >= cp.committed_seq_num,
        forall|v: VoteView| #[trigger] next.state.message_bank.outstanding_commits@.dom().contains(v)
            ==> v.seq_num >= cp.committed_seq_num,
        forall|k: (usize, Seq<u8>)| #[trigger] next.state.message_bank.checkpoint_messages@.dom().contains(k)
            ==> k.0 >= cp.committed_seq_num,
{
}

/// Waiting on a request and then no longer waiting on it leaves the wait set
/// as it was, order included.
pub proof fn lemma_wait_then_release(
    w0: VecMap<crate::messages::ClientRequest, ()>,
    w1: VecMap<crate::messages::ClientRequest, ()>,
    w2: VecMap<crate::messages::ClientRequest, ()>,
    r: ClientRequestView,
)
    requires
        w0.wf(),
        !w0@.dom().contains(r),
        w0.inserted(w1, r, ()),
        w1.removed(w2, r),
    ensures
        w2@ == w0@,
        w2.keys() == w0.keys(),
{
    let n = w0.entries@.len() as int;
    assert(w1@.dom().contains(r));
    assert(w1.keys() == w0.keys().push(r));
    w1.lemma_views();
    w0.lemma_views();
    assert(w1.keys()[n] == r);
    assert(w1.key_at(n) == r);
    w1.lemma_entry_in_map(n);
    assert(w2.keys() =~= w0.keys());
    assert(w2@ =~= w0@);
}

/// The sequence numbers that the view changes report as prepared are all at
/// most `max_prepared_seq`, which is at least `init`.
pub proof fn lemma_max_prepared_seq_bounds(msgs: Seq<ViewChangeView>, init: usize)
    ensures
        max_prepared_seq(msgs, init) >= init,
        forall|i: int, j: int|
            0 <= i < msgs.len() && 0 <= j < msgs[i].subsequent_prepares.len()
                ==> #[trigger] msgs[i].subsequent_prepares[j].seq_num <= max_prepared_seq(msgs, init),
    decreases msgs.len(),
{
    if msgs.len() > 0 {
        let prev = msgs.drop_last();
        lemma_max_prepared_seq_bounds(prev, init);
        let last = msgs.last();
        lemma_max_certificate_seq_bounds(last.subsequent_prepares, max_prepared_seq(prev, init));
        assert forall|i: int, j: int|
            0 <= i < msgs.len() && 0 <= j < msgs[i].subsequent_prepares.len()
                implies #[trigger] msgs[i].subsequent_prepares[j].seq_num <= max_prepared_seq(msgs, init) by {
            if i < msgs.len() - 1 {
                assert(msgs[i] == prev[i]);
                assert(prev[i].subsequent_prepares[j].seq_num <= max_prepared_seq(prev, init));
            }
        }
    }
}

proof fn lemma_max_certificate_seq_bounds(certs: Seq<crate::messages::PreparedCertificateView>, init: usize)
    ensures
        max_certificate_seq(certs, init) >= init,
        forall|j: int| 0 <= j < certs.len() ==> #[trigger] certs[j].seq_num <= max_certificate_seq(certs, init),
    decreases certs.len(),
{
    if certs.len() > 0 {
        lemma_max_certificate_seq_bounds(certs.drop_last(), init);
        assert forall|j: int| 0 <= j < certs.len() implies #[trigger] certs[j].seq_num <= max_certificate_seq(certs, init) by {
            if j < certs.len() - 1 {
                assert(certs[j] == certs.drop_last()[j]);
            }
        }
    }
}

/// The new leader proposes, for every sequence number after the latest stable
/// checkpoint that some view change reports as prepared, the reported
/// pre-prepare with the highest view: no prepared request is lost in a view
/// change.
pub proof fn lemma_new_view_keeps_prepared(
    id: NodeId,
    view: usize,
    msgs: Seq<ViewChangeView>,
    init: usize,
    i: int,
    sq: usize,
)
    requires
        0 <= i < msgs.len(),
        certificate_for(msgs[i].subsequent_prepares, sq) is Some,
        sq > max_stable(msgs, init),
    ensures
        highest_pre_prepare(msgs, sq) is Some,
        highest_pre_prepare(msgs, sq)->0.view >= certificate_for(msgs[i].subsequent_prepares, sq)->0.view,
        ({
            let latest = max_stable(msgs, init);
            let k = sq - latest - 1;
            let proposals = new_view_pre_prepares(id, view, msgs, latest, max_prepared_seq(msgs, init));
            &&& 0 <= k < proposals.len()
            &&& proposals[k] == pre_prepare_for(id, (view + 1) as usize, sq, proposal_for(msgs, sq))
            &&& proposal_for(msgs, sq) == highest_pre_prepare(msgs, sq)->0.client_request
        }),
{
    lemma_highest_is_highest(msgs, sq, i);
    lemma_certificate_for_in(msgs[i].subsequent_prepares, sq);
    lemma_max_prepared_seq_bounds(msgs, init);
    let j = choose|j: int| 0 <= j < msgs[i].subsequent_prepares.len() && #[trigger] msgs[i].subsequent_prepares[j].seq_num == sq;
    assert(msgs[i].subsequent_prepares[j].seq_num <= max_prepared_seq(msgs, init));
}

/// A certificate found for `sq` is one of the certificates, with sequence
/// number `sq`.
proof fn lemma_certificate_for_in(certs: Seq<crate::messages::PreparedCertificateView>, sq: usize)
    requires
        certificate_for(certs, sq) is Some,
    ensures
        exists|j: int| 0 <= j < certs.len() && #[trigger] certs[j].seq_num == sq,
    decreases certs.len(),
{
    if certs[0].seq_num != sq {
        let rest = certs.subrange(1, certs.len() as int);
        lemma_certificate_for_in(rest, sq);
        let j = choose|j: int| 0 <= j < rest.len() && #[trigger] rest[j].seq_num == sq;
        assert(certs[j + 1].seq_num == sq);
    } else {
        assert(certs[0].seq_num == sq);
    }
}

/// The proposal for `sq` has a view at least that of every reported
/// pre-prepare for `sq`.
proof fn lemma_highest_is_highest(msgs: Seq<ViewChangeView>, sq: usize, i: int)
    requires
        0 <= i < msgs.len(),
        certificate_for(msgs[i].subsequent_prepares, sq) is Some,
    ensures
        highest_pre_prepare(msgs, sq) is Some,
        highest_pre_prepare(msgs, sq)->0.view >= certificate_for(msgs[i].subsequent_prepares, sq)->0.view,
    decreases msgs.len(),
{
    let prev = msgs.drop_last();
    if i < msgs.len() - 1 {
        assert(prev[i] == msgs[i]);
        lemma_highest_is_highest(prev, sq, i);
    }
}

/// A replica that accepted a pre-prepare for a view and sequence number
/// refuses any pre-prepare for them with another digest: an equivocating
/// leader cannot get two requests accepted at one place.
pub proof fn lemma_conflicting_pre_prepare_refused(s: State, pp: PrePrepareView)
    requires
        s.message_bank.accepted_pre_prepare_requests@.dom().contains((pp.view, pp.seq_num)),
        s.message_bank.accepted_pre_prepare_requests@[(pp.view, pp.seq_num)].digest != pp.digest,
    ensures
        !s.accepts_pre_prepare(pp),
{
}

/// Requests are applied one at a time and in order: handling a commit either
/// leaves the applied prefix as it is, or applies exactly the next request.
/// Only in the latter case does the store change.
pub proof fn lemma_commits_applied_in_order(
    c: Consensus,
    next: Consensus,
    v: VoteView,
    r: ClientRequestView,
    acts: Seq<crate::consensus::ActionView>,
)
    requires
        apply_commit_post(c, next, v, r, acts),
    ensures
        next.state.last_seq_num_committed == c.state.last_seq_num_committed
            || next.state.last_seq_num_committed == c.state.last_seq_num_committed + 1,
        next.state.last_seq_num_committed == c.state.last_seq_num_committed ==> next.state.store == c.state.store,
        next.state.last_seq_num_committed == c.state.last_seq_num_committed + 1
            ==> next.state.store@ == apply_to_store(c.state.store@, r),
{
}

} // verus!

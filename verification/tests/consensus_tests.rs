use pbft::config::{max_faulty, Config};
use pbft::consensus::{Action, Consensus};
use pbft::messages::{
    ClientRequest, Commit, ConsensusCommand, Message, NodeCommand, PrePrepare, Prepare, ViewChange,
};
use pbft::vec_map::VecMap;

use std::time::Duration;

fn config(num_nodes: usize, checkpoint_frequency: usize, is_equivocator: bool) -> Config {
    let mut entries = Vec::new();
    for id in 0..num_nodes {
        entries.push((id, format!("127.0.0.1:{}", 38060 + id)));
    }
    Config {
        num_nodes,
        num_faulty: max_faulty(num_nodes),
        peer_addrs: VecMap { entries },
        request_timeout: Duration::from_secs(5),
        rebroadcast_timeout: Duration::from_secs(6),
        identity_broadcast_interval: Duration::from_secs(3),
        checkpoint_frequency,
        is_equivocator,
    }
}

fn request(ts: usize, key: &str, value: Option<u32>) -> ClientRequest {
    ClientRequest {
        respond_addr: "127.0.0.1:38079".to_string(),
        time_stamp: ts,
        key: key.to_string(),
        value,
    }
}

fn prepare_from(id: usize, pp: &PrePrepare) -> Prepare {
    Prepare { id, view: pp.view, seq_num: pp.seq_num, digest: pp.digest.clone(), signature: 0 }
}

fn commit_from(id: usize, pp: &PrePrepare) -> Commit {
    Commit { id, view: pp.view, seq_num: pp.seq_num, digest: pp.digest.clone(), signature: 0 }
}

fn only_to_self(acts: &[Action]) -> Vec<&ConsensusCommand> {
    acts.iter()
        .filter_map(|a| match a {
            Action::ToConsensus(c) => Some(c),
            _ => None,
        })
        .collect()
}

/// Runs a request through the whole normal case on the leader (node 0 of a
/// 4-node cluster) and returns the client response it sends.
fn commit_request(engine: &mut Consensus, req: ClientRequest) -> Vec<Action> {
    let acts = engine.handle(ConsensusCommand::ProcessMessage(Message::ClientRequestMessage(req.clone())));
    assert!(matches!(acts.as_slice(), [Action::ToConsensus(ConsensusCommand::InitPrePrepare(_))]));
    let acts = engine.handle(ConsensusCommand::InitPrePrepare(req));
    let pp = match acts.as_slice() {
        [Action::WatchPrePrepare(_), Action::ToNode(NodeCommand::BroadCastMessageCommand(b))] => match &b.message {
            Message::PrePrepareMessage(pp) => pp.clone(),
            _ => panic!("expected a pre-prepare"),
        },
        _ => panic!("unexpected actions"),
    };
    let acts = engine.handle(ConsensusCommand::ProcessMessage(Message::PrePrepareMessage(pp.clone())));
    assert!(matches!(acts.as_slice(), [Action::ToConsensus(ConsensusCommand::AcceptPrePrepare(_))]));
    engine.handle(ConsensusCommand::AcceptPrePrepare(pp.clone()));
    for id in 1..4 {
        let acts = engine.handle(ConsensusCommand::AcceptPrepare(prepare_from(id, &pp)));
        if id == 3 {
            assert!(matches!(only_to_self(&acts).as_slice(), [ConsensusCommand::EnterCommit(_)]));
        } else {
            assert!(only_to_self(&acts).is_empty());
        }
    }
    for id in 1..4 {
        let acts = engine.handle(ConsensusCommand::AcceptCommit(commit_from(id, &pp)));
        if id == 3 {
            assert!(matches!(acts.as_slice(), [Action::ToConsensus(ConsensusCommand::ApplyCommit(_))]));
        } else {
            assert!(acts.is_empty());
        }
    }
    engine.handle(ConsensusCommand::ApplyCommit(commit_from(1, &pp)))
}

fn response_value(acts: &[Action]) -> Option<u32> {
    for a in acts {
        if let Action::ToNode(NodeCommand::SendMessageCommand(s)) = a {
            if let Message::ClientResponseMessage(r) = &s.message {
                assert_eq!(s.destination, "127.0.0.1:38079");
                assert!(r.success);
                return r.value;
            }
        }
    }
    panic!("no client response");
}

#[test]
fn test() {}

#[test]
fn max_faulty_follows_three_f_plus_one() {
    assert_eq!(max_faulty(1), 0);
    assert_eq!(max_faulty(4), 1);
    assert_eq!(max_faulty(6), 1);
    assert_eq!(max_faulty(7), 2);
}

#[test]
fn read_returns_last_write() {
    let mut engine = Consensus::new(0, config(4, 10, false), vec![]);
    let acts = commit_request(&mut engine, request(1, "x", Some(42)));
    assert_eq!(response_value(&acts), None);
    let acts = commit_request(&mut engine, request(2, "x", None));
    assert_eq!(response_value(&acts), Some(42));
    let acts = commit_request(&mut engine, request(3, "y", None));
    assert_eq!(response_value(&acts), None);
    let acts = commit_request(&mut engine, request(4, "x", Some(7)));
    assert_eq!(response_value(&acts), None);
    let acts = commit_request(&mut engine, request(5, "x", None));
    assert_eq!(response_value(&acts), Some(7));
    assert_eq!(engine.state.last_seq_num_committed, 5);
}

#[test]
fn follower_forwards_client_request_to_leader() {
    let mut engine = Consensus::new(2, config(4, 10, false), vec![]);
    let req = request(1, "x", Some(1));
    let acts = engine.handle(ConsensusCommand::ProcessMessage(Message::ClientRequestMessage(req.clone())));
    assert!(matches!(acts.as_slice(), [Action::ToConsensus(ConsensusCommand::MisdirectedClientRequest(_))]));
    let acts = engine.handle(ConsensusCommand::MisdirectedClientRequest(req.clone()));
    match acts.as_slice() {
        [Action::ToNode(NodeCommand::SendMessageCommand(s)), Action::WatchRequest(r)] => {
            assert_eq!(s.destination, "127.0.0.1:38060");
            assert_eq!(r.time_stamp, 1);
        },
        _ => panic!("unexpected actions"),
    }
    // the same request is forwarded once per view
    let acts = engine.handle(ConsensusCommand::MisdirectedClientRequest(req));
    assert!(acts.is_empty());
}

#[test]
fn prepare_without_pre_prepare_waits() {
    let mut engine = Consensus::new(1, config(4, 10, false), vec![]);
    let req = request(1, "x", Some(1));
    let pp = PrePrepare::new(0, 0, 1, &req);
    let acts = engine.handle(ConsensusCommand::ProcessMessage(Message::PrepareMessage(prepare_from(2, &pp))));
    assert!(acts.is_empty());
    assert_eq!(engine.state.message_bank.outstanding_prepares.entries.len(), 1);
    let acts = engine.handle(ConsensusCommand::AcceptPrePrepare(pp.clone()));
    // broadcast of our own prepare, the buffered prepare, and the request timer
    match acts.as_slice() {
        [Action::ToNode(NodeCommand::BroadCastMessageCommand(b)), Action::ToConsensus(ConsensusCommand::AcceptPrepare(p)), Action::WatchRequest(_)] => {
            match &b.message {
                Message::PrepareMessage(mine) => {
                    assert_eq!(mine.id, 1);
                    assert_eq!(mine.digest, pp.digest);
                },
                _ => panic!("expected a prepare"),
            }
            assert_eq!(p.id, 2);
        },
        _ => panic!("unexpected actions"),
    }
}

#[test]
fn duplicate_prepare_counted_once() {
    let mut engine = Consensus::new(1, config(4, 10, false), vec![]);
    let req = request(1, "x", Some(1));
    let pp = PrePrepare::new(0, 0, 1, &req);
    engine.handle(ConsensusCommand::AcceptPrePrepare(pp.clone()));
    engine.handle(ConsensusCommand::AcceptPrepare(prepare_from(2, &pp)));
    let acts = engine.handle(ConsensusCommand::AcceptPrepare(prepare_from(2, &pp)));
    assert!(only_to_self(&acts).is_empty());
    let acts = engine.handle(ConsensusCommand::AcceptPrepare(prepare_from(2, &pp)));
    assert!(only_to_self(&acts).is_empty());
    let acts = engine.handle(ConsensusCommand::AcceptPrepare(prepare_from(3, &pp)));
    assert!(only_to_self(&acts).is_empty());
    let acts = engine.handle(ConsensusCommand::AcceptPrepare(prepare_from(0, &pp)));
    assert!(matches!(only_to_self(&acts).as_slice(), [ConsensusCommand::EnterCommit(_)]));
}

#[test]
fn out_of_order_commit_is_buffered() {
    let mut engine = Consensus::new(1, config(4, 10, false), vec![]);
    let r1 = request(1, "x", Some(1));
    let r2 = request(2, "x", None);
    let pp1 = PrePrepare::new(0, 0, 1, &r1);
    let pp2 = PrePrepare::new(0, 0, 2, &r2);
    engine.handle(ConsensusCommand::AcceptPrePrepare(pp1.clone()));
    engine.handle(ConsensusCommand::AcceptPrePrepare(pp2.clone()));
    let acts = engine.handle(ConsensusCommand::ApplyCommit(commit_from(0, &pp2)));
    assert!(acts.is_empty());
    assert_eq!(engine.state.last_seq_num_committed, 0);
    let acts = engine.handle(ConsensusCommand::ApplyCommit(commit_from(0, &pp1)));
    match acts.as_slice() {
        [Action::ToConsensus(ConsensusCommand::ApplyCommit(c)), Action::ToNode(NodeCommand::SendMessageCommand(_))] => {
            assert_eq!(c.seq_num, 2);
        },
        _ => panic!("unexpected actions"),
    }
    let acts = engine.handle(ConsensusCommand::ApplyCommit(commit_from(0, &pp2)));
    assert_eq!(response_value(&acts), Some(1));
    assert_eq!(engine.state.last_seq_num_committed, 2);
}

#[test]
fn commit_for_unknown_request_is_ignored() {
    let mut engine = Consensus::new(1, config(4, 10, false), vec![]);
    let pp = PrePrepare::new(0, 0, 1, &request(1, "x", Some(1)));
    let acts = engine.handle(ConsensusCommand::ApplyCommit(commit_from(0, &pp)));
    assert!(acts.is_empty());
    assert_eq!(engine.state.last_seq_num_committed, 0);
}

#[test]
fn rebroadcast_of_unknown_pre_prepare_stops() {
    let mut engine = Consensus::new(0, config(4, 10, false), vec![]);
    let acts = engine.handle(ConsensusCommand::RebroadcastPrePrepare((0, 5)));
    assert!(matches!(acts.as_slice(), [Action::Stop]));
    let pp = PrePrepare::new(0, 0, 1, &request(1, "x", Some(1)));
    engine.handle(ConsensusCommand::AcceptPrePrepare(pp));
    let acts = engine.handle(ConsensusCommand::RebroadcastPrePrepare((0, 1)));
    assert!(matches!(
        acts.as_slice(),
        [Action::ToNode(NodeCommand::BroadCastMessageCommand(_)), Action::WatchPrePrepare((0, 1))]
    ));
}

#[test]
fn equivocating_leader_splits_the_cluster() {
    let mut engine = Consensus::new(0, config(4, 10, true), vec![]);
    let acts = engine.handle(ConsensusCommand::InitPrePrepare(request(1, "x", Some(5))));
    assert_eq!(acts.len(), 4);
    for a in acts.iter() {
        match a {
            Action::ToNode(NodeCommand::SendMessageCommand(s)) => match &s.message {
                Message::PrePrepareMessage(pp) => {
                    let port: usize = s.destination.rsplit(':').next().unwrap().parse().unwrap();
                    let peer = port - 38060;
                    if peer % 2 == 0 {
                        assert_eq!(pp.client_request.value, Some(42));
                    } else {
                        assert_eq!(pp.client_request.value, Some(5));
                    }
                    assert_eq!(pp.digest, pp.client_request.hash());
                    assert_eq!(pp.seq_num, 1);
                },
                _ => panic!("expected a pre-prepare"),
            },
            _ => panic!("expected sends"),
        }
    }
}

#[test]
fn pre_prepare_with_wrong_digest_is_refused() {
    let mut engine = Consensus::new(1, config(4, 10, false), vec![]);
    let mut pp = PrePrepare::new(0, 0, 1, &request(1, "x", Some(1)));
    pp.digest = vec![0u8; 32];
    let acts = engine.handle(ConsensusCommand::ProcessMessage(Message::PrePrepareMessage(pp)));
    assert!(acts.is_empty());
    // a second pre-prepare for the same slot must carry the same digest
    let good = PrePrepare::new(0, 0, 1, &request(1, "x", Some(1)));
    engine.handle(ConsensusCommand::AcceptPrePrepare(good));
    let other = PrePrepare::new(0, 0, 1, &request(2, "x", Some(2)));
    let acts = engine.handle(ConsensusCommand::ProcessMessage(Message::PrePrepareMessage(other)));
    assert!(acts.is_empty());
}

#[test]
fn checkpoint_becomes_stable_and_collects_garbage() {
    let mut engine = Consensus::new(0, config(4, 1, false), vec![]);
    let acts = commit_request(&mut engine, request(1, "x", Some(3)));
    let cp = match acts.last() {
        Some(Action::ToNode(NodeCommand::BroadCastMessageCommand(b))) => match &b.message {
            Message::CheckPointMessage(cp) => cp.clone(),
            _ => panic!("expected a checkpoint"),
        },
        _ => panic!("expected a checkpoint broadcast"),
    };
    assert_eq!(cp.committed_seq_num, 1);
    assert_eq!(cp.state, vec![("x".to_string(), 3)]);
    assert_eq!(cp.state_digest, engine.state.digest());
    let mut mine = cp.clone();
    mine.id = 0;
    let acts = engine.handle(ConsensusCommand::AcceptCheckpoint(mine));
    assert!(acts.is_empty());
    assert_eq!(engine.state.last_stable_seq_num, 0);
    let mut other = cp.clone();
    other.id = 1;
    engine.handle(ConsensusCommand::AcceptCheckpoint(other));
    // two votes are not more than 2f with f = 1
    assert_eq!(engine.state.last_stable_seq_num, 0);
    let mut third = cp.clone();
    third.id = 2;
    engine.handle(ConsensusCommand::AcceptCheckpoint(third));
    assert_eq!(engine.state.last_stable_seq_num, 1);
    assert_eq!(engine.state.last_checkpoint_proof.len(), 3);
    assert_eq!(
        engine.state.last_checkpoint_proof.iter().map(|c| c.id).collect::<Vec<_>>(),
        vec![0, 1, 2]
    );
    assert_eq!(engine.state.checkpoint_votes.entries.len(), 0);
    // what belongs to sequence number 1 is kept
    assert_eq!(engine.state.message_bank.accepted_pre_prepare_requests.entries.len(), 1);
    assert_eq!(engine.state.message_bank.applied_commits.entries.len(), 1);
    assert_eq!(engine.state.message_bank.checkpoint_messages.entries.len(), 1);
}

#[test]
fn later_checkpoint_collects_older_messages() {
    let mut engine = Consensus::new(0, config(4, 1, false), vec![]);
    commit_request(&mut engine, request(1, "x", Some(3)));
    let acts = commit_request(&mut engine, request(2, "y", Some(4)));
    let cp = match acts.last() {
        Some(Action::ToNode(NodeCommand::BroadCastMessageCommand(b))) => match &b.message {
            Message::CheckPointMessage(cp) => cp.clone(),
            _ => panic!("expected a checkpoint"),
        },
        _ => panic!("expected a checkpoint broadcast"),
    };
    assert_eq!(cp.committed_seq_num, 2);
    assert_eq!(engine.state.message_bank.applied_commits.entries.len(), 2);
    for id in 0..3 {
        let mut vote = cp.clone();
        vote.id = id;
        engine.handle(ConsensusCommand::AcceptCheckpoint(vote));
    }
    assert_eq!(engine.state.last_stable_seq_num, 2);
    // everything about sequence number 1 is gone
    assert_eq!(engine.state.message_bank.applied_commits.entries.len(), 1);
    assert_eq!(engine.state.message_bank.applied_commits.entries[0].0, 2);
    assert_eq!(engine.state.message_bank.accepted_pre_prepare_requests.entries.len(), 1);
    assert_eq!(engine.state.message_bank.accepted_pre_prepare_requests.entries[0].0, (0, 2));
}

#[test]
fn single_votes_suffice_without_faulty_nodes() {
    let mut c = config(1, 1, false);
    c.num_faulty = 0;
    let mut engine = Consensus::new(0, c, vec![]);
    let req = request(1, "x", Some(1));
    let pp = PrePrepare::new(0, 0, 1, &req);
    engine.handle(ConsensusCommand::AcceptPrePrepare(pp.clone()));
    let acts = engine.handle(ConsensusCommand::AcceptPrepare(prepare_from(0, &pp)));
    assert!(matches!(only_to_self(&acts).as_slice(), [ConsensusCommand::EnterCommit(_)]));
    let acts = engine.handle(ConsensusCommand::AcceptCommit(commit_from(0, &pp)));
    assert!(matches!(acts.as_slice(), [Action::ToConsensus(ConsensusCommand::ApplyCommit(_))]));
    let acts = engine.handle(ConsensusCommand::ApplyCommit(commit_from(0, &pp)));
    let cp = match acts.last() {
        Some(Action::ToNode(NodeCommand::BroadCastMessageCommand(b))) => match &b.message {
            Message::CheckPointMessage(cp) => cp.clone(),
            _ => panic!("expected a checkpoint"),
        },
        _ => panic!("expected a checkpoint broadcast"),
    };
    engine.handle(ConsensusCommand::AcceptCheckpoint(cp));
    assert_eq!(engine.state.last_stable_seq_num, 1);
    assert_eq!(engine.state.last_checkpoint_proof.len(), 1);
}

#[test]
fn apply_commit_with_default_configuration() {
    let c = Config { num_nodes: 4, num_faulty: 1, ..Default::default() };
    let mut engine = Consensus::new(0, c, vec![]);
    let req = request(1, "x", Some(7));
    let commit2 = Commit { id: 1, view: 0, seq_num: 2, digest: vec![], signature: 0 };
    let acts = engine.apply_commit(&commit2, &req);
    assert!(acts.is_empty());
    assert!(engine.state.store.entries.is_empty());
    assert_eq!(engine.state.last_seq_num_committed, 0);
    assert!(engine.state.message_bank.applied_commits.entries.is_empty());
    assert_eq!(engine.state.message_bank.accepted_commits_not_applied.entries.len(), 1);
    assert_eq!(engine.state.message_bank.accepted_commits_not_applied.entries[0].0, 2);
    let commit1 = Commit { id: 1, view: 0, seq_num: 1, digest: vec![], signature: 0 };
    let acts = engine.apply_commit(&commit1, &req);
    assert_eq!(engine.state.store.entries, vec![("x".to_string(), 7)]);
    assert_eq!(engine.state.last_seq_num_committed, 1);
    assert_eq!(engine.state.message_bank.applied_commits.entries.len(), 1);
    assert_eq!(engine.state.message_bank.applied_commits.entries[0].0, 1);
    // the buffered commit at 2 is handed back, then the response goes out
    match acts.as_slice() {
        [Action::ToConsensus(ConsensusCommand::ApplyCommit(c)), Action::ToNode(NodeCommand::SendMessageCommand(s))] => {
            assert_eq!(c.seq_num, 2);
            match &s.message {
                Message::ClientResponseMessage(r) => {
                    assert_eq!(r.id, 0);
                    assert_eq!(r.time_stamp, 1);
                    assert_eq!(r.key, "x");
                    assert!(r.success);
                },
                _ => panic!("expected a client response"),
            }
        },
        _ => panic!("unexpected actions"),
    }
}

#[test]
fn lagging_replica_fast_forwards_to_checkpoint() {
    let mut engine = Consensus::new(3, config(4, 10, false), vec![]);
    let state = vec![("a".to_string(), 1u32), ("b".to_string(), 2u32)];
    for id in 0..3 {
        let cp = pbft::messages::CheckPoint::new(id, 10, 0, vec![9u8; 64], state.clone());
        engine.handle(ConsensusCommand::AcceptCheckpoint(cp));
    }
    assert_eq!(engine.state.last_seq_num_committed, 10);
    assert_eq!(engine.state.last_stable_seq_num, 10);
    assert_eq!(engine.state.store.entries, state);
}

#[test]
fn view_change_moves_to_next_leader() {
    // node 2 is a follower in view 0 and times out
    let mut follower = Consensus::new(2, config(4, 10, false), vec![]);
    let req = request(1, "x", Some(1));
    let pp = PrePrepare::new(0, 0, 1, &req);
    follower.handle(ConsensusCommand::AcceptPrePrepare(pp.clone()));
    for id in 0..3 {
        follower.handle(ConsensusCommand::AcceptPrepare(prepare_from(id, &pp)));
    }
    let acts = follower.handle(ConsensusCommand::InitViewChange(req.clone()));
    let vc = match acts.as_slice() {
        [Action::ToNode(NodeCommand::BroadCastMessageCommand(b))] => match &b.message {
            Message::ViewChangeMessage(vc) => vc.clone(),
            _ => panic!("expected a view change"),
        },
        _ => panic!("unexpected actions"),
    };
    assert_eq!(vc.new_view, 1);
    assert_eq!(vc.subsequent_prepares.len(), 1);
    assert_eq!(vc.subsequent_prepares[0].seq_num, 1);
    assert_eq!(vc.subsequent_prepares[0].prepares.len(), 3);
    assert!(follower.state.in_view_change);
    // a replica in a view change accepts no prepares
    let acts = follower.handle(ConsensusCommand::ProcessMessage(Message::PrepareMessage(prepare_from(3, &pp))));
    assert!(acts.is_empty());

    // node 1 leads view 1
    let mut leader = Consensus::new(1, config(4, 10, false), vec![]);
    let acts = leader.handle(ConsensusCommand::ProcessMessage(Message::ViewChangeMessage(vc.clone())));
    assert!(matches!(acts.as_slice(), [Action::ToConsensus(ConsensusCommand::AcceptViewChange(_))]));
    let mut new_view = None;
    for id in [2usize, 3, 0] {
        let mut m: ViewChange = vc.clone();
        m.id = id;
        let acts = leader.handle(ConsensusCommand::AcceptViewChange(m));
        if id == 0 {
            match acts.as_slice() {
                [Action::ToNode(NodeCommand::BroadCastMessageCommand(b))] => match &b.message {
                    Message::NewViewMessage(nv) => new_view = Some(nv.clone()),
                    _ => panic!("expected a new view"),
                },
                _ => panic!("unexpected actions"),
            }
        } else {
            assert!(acts.is_empty());
        }
    }
    let nv = new_view.unwrap();
    assert_eq!(nv.view, 1);
    assert_eq!(nv.view_change_messages.len(), 3);
    assert_eq!(nv.outstanding_pre_prepares.len(), 1);
    assert_eq!(nv.outstanding_pre_prepares[0].view, 1);
    assert_eq!(nv.outstanding_pre_prepares[0].seq_num, 1);
    assert_eq!(nv.outstanding_pre_prepares[0].client_request.value, Some(1));

    let acts = leader.handle(ConsensusCommand::AcceptNewView(nv.clone()));
    assert_eq!(leader.state.view, 1);
    assert!(matches!(acts.as_slice(), [Action::ToConsensus(ConsensusCommand::InitPrePrepare(_))]));
    let acts = follower.handle(ConsensusCommand::AcceptNewView(nv));
    assert!(acts.is_empty());
    assert!(!follower.state.in_view_change);
    assert_eq!(follower.state.view, 1);
}

#[test]
fn leader_does_not_start_view_change() {
    let mut engine = Consensus::new(0, config(4, 10, false), vec![]);
    let acts = engine.handle(ConsensusCommand::InitViewChange(request(1, "x", None)));
    assert!(acts.is_empty());
    assert!(!engine.state.in_view_change);
}

#[test]
fn new_view_fills_gaps_with_no_ops() {
    let mut leader = Consensus::new(1, config(4, 10, false), vec![]);
    let pp = PrePrepare::new(0, 0, 3, &request(1, "x", Some(1)));
    let cert = pbft::messages::PreparedCertificate { seq_num: 3, pre_prepare: pp, prepares: vec![] };
    let mut last = Vec::new();
    for id in 0..3 {
        let vc = ViewChange::new(id, 1, 0, vec![], if id == 0 { vec![cert.clone()] } else { vec![] });
        last = leader.handle(ConsensusCommand::AcceptViewChange(vc));
    }
    match last.as_slice() {
        [Action::ToNode(NodeCommand::BroadCastMessageCommand(b))] => match &b.message {
            Message::NewViewMessage(nv) => {
                assert_eq!(nv.outstanding_pre_prepares.len(), 3);
                assert_eq!(nv.outstanding_pre_prepares[0].client_request.key, "");
                assert_eq!(nv.outstanding_pre_prepares[1].client_request.key, "");
                assert_eq!(nv.outstanding_pre_prepares[2].client_request.key, "x");
                assert_eq!(nv.outstanding_pre_prepares[2].seq_num, 3);
            },
            _ => panic!("expected a new view"),
        },
        _ => panic!("unexpected actions"),
    }
    assert_eq!(leader.state.seq_num, 0);
}

#[test]
fn pre_prepares_increase_and_are_not_repeated() {
    let mut engine = Consensus::new(0, config(4, 10, false), vec![]);
    let mut seqs = Vec::new();
    for req in [request(1, "x", Some(1)), request(2, "y", Some(2)), request(1, "x", Some(1)), request(3, "z", None)] {
        let acts = engine.handle(ConsensusCommand::InitPrePrepare(req));
        match acts.as_slice() {
            [Action::WatchPrePrepare((0, s)), Action::ToNode(NodeCommand::BroadCastMessageCommand(b))] => {
                match &b.message {
                    Message::PrePrepareMessage(pp) => assert_eq!(pp.seq_num, *s),
                    _ => panic!("expected a pre-prepare"),
                }
                assert_eq!(engine.state.seq_num, *s);
                seqs.push(*s);
            },
            // a request already pre-prepared in this view issues nothing
            [] => seqs.push(0),
            _ => panic!("unexpected actions"),
        }
    }
    assert_eq!(seqs, vec![1, 2, 0, 3]);
}

#[test]
fn committed_sequence_number_never_goes_down() {
    let mut engine = Consensus::new(1, config(4, 10, false), vec![]);
    let pp1 = PrePrepare::new(0, 0, 1, &request(1, "x", Some(1)));
    engine.handle(ConsensusCommand::AcceptPrePrepare(pp1.clone()));
    engine.handle(ConsensusCommand::ApplyCommit(commit_from(0, &pp1)));
    assert_eq!(engine.state.last_seq_num_committed, 1);
    // applying the same commit again changes nothing
    let acts = engine.handle(ConsensusCommand::ApplyCommit(commit_from(0, &pp1)));
    assert!(acts.is_empty());
    assert_eq!(engine.state.last_seq_num_committed, 1);
    // a stable checkpoint behind the replica does not move it back
    for id in 0..3 {
        let cp = pbft::messages::CheckPoint::new(id, 0, 0, vec![7u8; 64], vec![]);
        engine.handle(ConsensusCommand::AcceptCheckpoint(cp));
    }
    assert_eq!(engine.state.last_seq_num_committed, 1);
    assert_eq!(engine.state.store.entries, vec![("x".to_string(), 1)]);
}
